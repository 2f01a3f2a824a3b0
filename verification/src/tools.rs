//! Decisions of the host build tool: which subcommand was asked for.
use vstd::prelude::*;

verus! {

/// Subcommands of the host build tool.
#[derive(Debug, Clone, Copy, PartialEq, Eq, Structural)]
pub enum ToolCommand {
    /// Build the kernel for `x86_64-unknown-none`.
    Build,
    /// Build the kernel and create the UEFI disk image.
    Image,
    /// Create the disk image and boot it under QEMU.
    Run,
    /// Run the host tests of the workspace.
    Test,
    /// Anything else: print the usage line.
    Usage,
}

/// ASCII `build`.
pub open spec fn word_build() -> Seq<u8> {
    seq![98u8, 117u8, 105u8, 108u8, 100u8]
}

/// ASCII `image`.
pub open spec fn word_image() -> Seq<u8> {
    seq![105u8, 109u8, 97u8, 103u8, 101u8]
}

/// ASCII `run`.
pub open spec fn word_run() -> Seq<u8> {
    seq![114u8, 117u8, 110u8]
}

/// ASCII `test`.
pub open spec fn word_test() -> Seq<u8> {
    seq![116u8, 101u8, 115u8, 116u8]
}

/// The subcommand named by the first argument's bytes.
pub open spec fn command_of(argument: Option<Seq<u8>>) -> ToolCommand {
    match argument {
        Some(word) => if word == word_build() {
            ToolCommand::Build
        } else if word == word_image() {
            ToolCommand::Image
        } else if word == word_run() {
            ToolCommand::Run
        } else if word == word_test() {
            ToolCommand::Test
        } else {
            ToolCommand::Usage
        },
        None => ToolCommand::Usage,
    }
}

fn same_bytes(a: &[u8], b: &[u8]) -> (r: bool)
    ensures
        r == (a@ == b@),
{
    if a.len() != b.len() {
        return false;
    }
    let mut i: usize = 0;
    while i < a.len()
        invariant
            i <= a@.len(),
            a@.len() == b@.len(),
            forall|j: int| 0 <= j < i ==> a@[j] == b@[j],
        decreases a@.len() - i,
    {
        if a[i] != b[i] {
            return false;
        }
        i = i + 1;
    }
    assert(a@ =~= b@);
    true
}

/// The subcommand asked for by the first command-line argument (its bytes);
/// a missing or unknown argument asks for the usage line.
pub fn parse_command(argument: Option<&[u8]>) -> (c: ToolCommand)
    ensures
        c == command_of(
            match argument {
                Some(a) => Some(a@),
                None => None,
            },
        ),
{
    let word = match argument {
        Some(a) => a,
        None => return ToolCommand::Usage,
    };
    let build: [u8; 5] = [98, 117, 105, 108, 100];
    let image: [u8; 5] = [105, 109, 97, 103, 101];
    let run: [u8; 3] = [114, 117, 110];
    let test: [u8; 4] = [116, 101, 115, 116];
    assert(build@ =~= word_build());
    assert(image@ =~= word_image());
    assert(run@ =~= word_run());
    assert(test@ =~= word_test());
    if same_bytes(word, build.as_slice()) {
        ToolCommand::Build
    } else if same_bytes(word, image.as_slice()) {
        ToolCommand::Image
    } else if same_bytes(word, run.as_slice()) {
        ToolCommand::Run
    } else if same_bytes(word, test.as_slice()) {
        ToolCommand::Test
    } else {
        ToolCommand::Usage
    }
}

} // verus!
