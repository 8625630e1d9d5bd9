//! The argument list handed to the isolation tool.
use vstd::prelude::*;

verus! {

/// The isolation tool that is run.
pub const PROGRAM: &'static str = "bwrap";

/// Where the workspace appears inside the sandbox.
pub const MOUNT_POINT: &'static str = "/run/sandbox";

/// The read-only store of interpreters and tools shared by every run.
pub const DEPENDENCY_STORE: &'static str = "/nix/store";

/// The arguments, in order: the workspace bound read-write at the mount
/// point, the dependency store bound read-only, fresh `/proc`, `/dev` and
/// `/tmp`, every namespace unshared, death with the parent, the mount point as
/// working directory, and the command run through `sh -c`.
pub open spec fn launch_args_spec(workspace: Seq<char>, command: Seq<char>) -> Seq<Seq<char>> {
    seq![
        "--bind"@, workspace, MOUNT_POINT@,
        "--ro-bind"@, DEPENDENCY_STORE@, DEPENDENCY_STORE@,
        "--proc"@, "/proc"@,
        "--dev-bind"@, "/dev"@, "/dev"@,
        "--tmpfs"@, "/tmp"@,
        "--unshare-all"@,
        "--die-with-parent"@,
        "--chdir"@, MOUNT_POINT@,
        "sh"@, "-c"@, command,
    ]
}

/// Builds the isolation tool's arguments for running `command` in `workspace`.
pub fn launch_args(workspace: &str, command: &str) -> (r: Vec<String>)
    ensures
        r@.map_values(|s: String| s@) == launch_args_spec(workspace@, command@),
{
    let mut r: Vec<String> = Vec::new();
    r.push("--bind".to_owned());
    r.push(workspace.to_owned());
    r.push(MOUNT_POINT.to_owned());
    r.push("--ro-bind".to_owned());
    r.push(DEPENDENCY_STORE.to_owned());
    r.push(DEPENDENCY_STORE.to_owned());
    r.push("--proc".to_owned());
    r.push("/proc".to_owned());
    r.push("--dev-bind".to_owned());
    r.push("/dev".to_owned());
    r.push("/dev".to_owned());
    r.push("--tmpfs".to_owned());
    r.push("/tmp".to_owned());
    r.push("--unshare-all".to_owned());
    r.push("--die-with-parent".to_owned());
    r.push("--chdir".to_owned());
    r.push(MOUNT_POINT.to_owned());
    r.push("sh".to_owned());
    r.push("-c".to_owned());
    r.push(command.to_owned());
    assert(r@.map_values(|s: String| s@) =~= launch_args_spec(workspace@, command@));
    r
}

} // verus!
