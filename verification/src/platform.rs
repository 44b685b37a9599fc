//! Platform rules that are decisions rather than system calls: which pids
//! can name a real process, where the runtime root lives by default, when a
//! directory counts as private to this user, and when a helper needs `sudo`. The system calls are the application's part.
use vstd::prelude::*;
use crate::text::owned;

verus! {

/// Which signal to deliver to a process.
#[derive(Clone, Copy, Debug, PartialEq, Eq, Structural)]
pub enum Signal {
    /// Polite stop: SIGTERM on Unix.
    Term,
    /// Unconditional kill: SIGKILL on Unix.
    Kill,
}

/// Only a positive pid names one process: 0 and negatives are broadcasts or
/// process groups to `kill(2)`.
pub fn is_real_pid(pid: i32) -> (r: bool)
    ensures
        r == (pid > 0),
{
    pid > 0
}

/// Whether a process with this pid exists: never for an impossible pid;
/// otherwise what `probe` (the system's existence check) answers.
pub fn pid_alive<F: Fn(i32) -> bool>(pid: i32, probe: F) -> (r: bool)
    requires
        pid > 0 ==> call_requires(probe, (pid,)),
    ensures
        pid <= 0 ==> !r,
        pid > 0 ==> call_ensures(probe, (pid,), r),
{
    if !is_real_pid(pid) {
        return false;
    }
    probe(pid)
}

/// The default root of the per-user runtime base: `/tmp` on Unix (one
/// location for every environment of a user); on Windows the per-user temp
/// directory `windows_temp`.
pub fn default_runtime_root(windows_temp: Option<&str>) -> (r: String)
    ensures
        r@ == match windows_temp {
            Some(t) => t@,
            None => "/tmp"@,
        },
{
    match windows_temp {
        Some(t) => owned(t),
        None => owned("/tmp"),
    }
}

/// Whether this process runs with superuser rights: uid 0 on Unix; never on
/// Windows, which has no `sudo` to decide about.
pub fn is_superuser(uid: u32, windows: bool) -> (r: bool)
    ensures
        r == (!windows && uid == 0),
{
    !windows && uid == 0
}

/// What the writer does with a path that already stands where a private
/// directory is wanted.
#[derive(Clone, Copy, Debug, PartialEq, Eq, Structural)]
pub enum ExistingDir {
    /// A directory this user owns that nobody else can enter.
    Accept,
    /// This user's own directory, but group or world bits are set: set its
    /// permissions to 0700 and accept it.
    Tighten,
    /// A symlink, not a directory, or another owner's: an error.
    Refuse,
}

/// The group and other permission bits of a Unix mode.
pub open spec fn open_bits(mode: u32) -> u32 {
    mode & 0o077u32
}

/// A real directory (not followed through a symlink), owned by `me`, with no
/// group or other permission bits.
pub open spec fn private_dir(is_dir: bool, owner: u32, mode: u32, me: u32) -> bool {
    is_dir && owner == me && open_bits(mode) == 0
}

pub open spec fn existing_dir_spec(is_dir: bool, owner: u32, mode: u32, me: u32) -> ExistingDir {
    if !is_dir || owner != me {
        ExistingDir::Refuse
    } else if open_bits(mode) != 0 {
        ExistingDir::Tighten
    } else {
        ExistingDir::Accept
    }
}

/// The reader's check on the runtime base, from what `lstat` reports of it
/// (`is_dir` of the link itself, its owner and its mode) and this user's uid.
/// It never repairs: anything short of private is refused.
pub fn is_private(is_dir: bool, owner: u32, mode: u32, me: u32) -> (r: bool)
    ensures
        r == private_dir(is_dir, owner, mode, me),
{
    is_dir && owner == me && mode & 0o077u32 == 0
}

/// The writer's verdict on a path that already exists where it wanted to
/// create a private directory.
pub fn existing_dir(is_dir: bool, owner: u32, mode: u32, me: u32) -> (r: ExistingDir)
    ensures
        r == existing_dir_spec(is_dir, owner, mode, me),
{
    if !is_dir || owner != me {
        ExistingDir::Refuse
    } else if mode & 0o077u32 != 0 {
        ExistingDir::Tighten
    } else {
        ExistingDir::Accept
    }
}

/// The mode a directory has after its permissions are set to 0700: the
/// file-type bits kept, the permission bits replaced.
pub open spec fn tightened(mode: u32) -> u32 {
    (mode & !0o7777u32) | 0o700u32
}

/// The writer and the reader agree: what the writer accepts as it is, the
/// reader trusts; what it tightens, the reader trusts once tightened; and
/// nothing the writer refuses is trusted by the reader, whatever its mode.
pub proof fn law_the_writer_leaves_what_the_reader_trusts(is_dir: bool, owner: u32, mode: u32, me: u32)
    ensures
        existing_dir_spec(is_dir, owner, mode, me) == ExistingDir::Accept <==> private_dir(
            is_dir,
            owner,
            mode,
            me,
        ),
        existing_dir_spec(is_dir, owner, mode, me) == ExistingDir::Tighten ==> private_dir(
            is_dir,
            owner,
            tightened(mode),
            me,
        ),
        existing_dir_spec(is_dir, owner, mode, me) == ExistingDir::Refuse ==> forall|m: u32|
            !#[trigger] private_dir(is_dir, owner, m, me),
{
    assert(((mode & !0o7777u32) | 0o700u32) & 0o077u32 == 0) by (bit_vector);
}

} // verus!
