use paniolo::skills::{find_skill, skill_description, skill_list_lines, skill_listing, Skill};

fn skill(name: &str, path: &str, skill_md: &str) -> Skill {
    Skill { name: name.to_string(), path: path.to_string(), description: skill_description(skill_md) }
}

#[test]
fn an_inline_description_is_read_and_unquoted() {
    assert_eq!(skill_description("---\nname: x\ndescription: a test skill\n---\nbody\n"), "a test skill");
    assert_eq!(skill_description("---\ndescription: \"quoted, with: colon\"\n---\n"), "quoted, with: colon");
    assert_eq!(skill_description("---\r\ndescription:   'single'  \r\n---\r\n"), "single");
}

#[test]
fn a_block_scalar_description_is_collapsed_to_one_line() {
    let text = "---\nname: kvm\ndescription: >\n  Drive a GUI\n\n  through the KVM.\nother: x\n---\n";
    assert_eq!(skill_description(text), "Drive a GUI through the KVM.");
    let literal = "---\ndescription: |-\n    first\n    second\n---\nbody";
    assert_eq!(skill_description(literal), "first second");
    let empty_value = "---\ndescription:\n  on the next line\n";
    assert_eq!(skill_description(empty_value), "on the next line");
}

#[test]
fn no_frontmatter_or_no_field_gives_no_description() {
    assert_eq!(skill_description("# Title\ndescription: not frontmatter\n"), "");
    assert_eq!(skill_description("---\nname: x\n---\ndescription: after the frontmatter\n"), "");
    assert_eq!(skill_description(""), "");
}

#[test]
fn an_earlier_dir_shadows_a_later_one() {
    let found = vec![
        skill("dup", "first/dup/SKILL.md", "---\nname: dup\ndescription: from first\n---\n"),
        skill("dup", "second/dup/SKILL.md", "---\nname: dup\ndescription: from second\n---\n"),
    ];
    let listed = skill_listing(&found);
    assert_eq!(listed.len(), 1);
    assert_eq!(listed[0].description, "from first");
}

#[test]
fn the_listing_is_ordered_by_name() {
    let found = vec![
        skill("paniolo", "a/paniolo/SKILL.md", "---\ndescription: usage\n---\n"),
        skill("kvm-puppeting", "a/kvm-puppeting/SKILL.md", "no frontmatter"),
        skill("paniolo", "b/paniolo/SKILL.md", "---\ndescription: older\n---\n"),
    ];
    let listed = skill_listing(&found);
    let names: Vec<&str> = listed.iter().map(|s| s.name.as_str()).collect();
    assert_eq!(names, ["kvm-puppeting", "paniolo"]);
    assert_eq!(listed[1].path, "a/paniolo/SKILL.md");
    assert_eq!(
        skill_list_lines(&listed, &Vec::new()),
        vec![
            "kvm-puppeting",
            "",
            "paniolo",
            "    usage",
            "",
            "Read one with `paniolo skill <name>` (or --path for its file path).",
        ]
    );
}

#[test]
fn an_empty_search_says_where_it_looked() {
    let searched = vec!["/home/u/.local/share/paniolo/skills".to_string(), "/usr/share/paniolo/skills".to_string()];
    assert_eq!(
        skill_list_lines(&Vec::new(), &searched),
        vec!["No skills found (searched /home/u/.local/share/paniolo/skills, /usr/share/paniolo/skills) — install the paniolo package or run `paniolo setup` from a source checkout."]
    );
}

#[test]
fn an_unknown_skill_names_the_known_ones() {
    let found = vec![skill("paniolo", "p", ""), skill("kvm", "k", "")];
    assert_eq!(find_skill(&found, "kvm"), Ok(1));
    assert_eq!(
        find_skill(&found, "nope"),
        Err("skill 'nope' not found (skills: paniolo, kvm). List them with `paniolo skill`.".to_string())
    );
    assert_eq!(
        find_skill(&Vec::new(), "x"),
        Err("skill 'x' not found (skills: (none)). List them with `paniolo skill`.".to_string())
    );
}
