//! Remote commands: the request that runs a command line, and the one that
//! makes a directory.
use vstd::prelude::*;
use vstd::string::*;
use crate::utils::{check_path, outside_sandbox, path_fault};
use crate::AdbCommand;
use crate::AdbTransportError;
use crate::ErrorView;
use crate::PathError;

verus! {

/// The words of a command line, with one space between each two.
pub open spec fn joined(words: Seq<Seq<char>>) -> Seq<char>
    decreases words.len(),
{
    if words.len() == 0 {
        Seq::empty()
    } else if words.len() == 1 {
        words[0]
    } else {
        joined(words.drop_last()) + seq![' '] + words.last()
    }
}

/// The request that runs `cmd` on the device.
pub fn shell(cmd: &Vec<String>) -> (command: AdbCommand)
    ensures
        command matches AdbCommand::ShellExec(line) && line@ == joined(cmd.deep_view()),
{
    let mut line = String::new();
    let mut i: usize = 0;
    let ghost words = cmd.deep_view();
    assert(words.take(0) =~= Seq::<Seq<char>>::empty());
    while i < cmd.len()
        invariant
            i <= cmd.len(),
            words == cmd.deep_view(),
            line@ == joined(words.take(i as int)),
        decreases cmd.len() - i,
    {
        proof {
            let longer = words.take(i + 1);
            assert(longer.drop_last() =~= words.take(i as int));
            assert(longer.last() == cmd@[i as int]@);
            assert(joined(words.take(0)) =~= Seq::<char>::empty());
            if i > 0 {
                assert(joined(longer) == joined(words.take(i as int)) + seq![' ']
                    + cmd@[i as int]@);
            } else {
                assert(joined(longer) == cmd@[i as int]@);
                assert(Seq::<char>::empty() + cmd@[i as int]@ =~= cmd@[i as int]@);
            }
        }
        if i > 0 {
            line.append(" ");
            proof {
                reveal_strlit(" ");
                assert(" "@ =~= seq![' ']);
            }
        }
        line.append(cmd[i].as_str());
        i = i + 1;
    }
    assert(words.take(cmd.len() as int) =~= words);
    AdbCommand::ShellExec(line)
}

/// The request that makes the directory `path` on the device.
///
/// The path must pass validation and lie within what may be written.
pub fn mkdir(path: &str) -> (r: Result<AdbCommand, AdbTransportError>)
    ensures
        match r {
            Ok(command) => {
                &&& path_fault(path.spec_bytes()) is None
                &&& !outside_sandbox(path.spec_bytes())
                &&& command matches AdbCommand::ShellExec(line) && line@ == "mkdir "@ + path@
            },
            Err(e) => e@ == ErrorView::InvalidPath(
                match path_fault(path.spec_bytes()) {
                    Some(fault) => fault,
                    None => PathError::OutsideSandbox,
                },
            ) && (path_fault(path.spec_bytes()) is Some || outside_sandbox(path.spec_bytes())),
        },
{
    match check_path(path) {
        Err(e) => Err(e),
        Ok(false) => Err(AdbTransportError::InvalidPath(PathError::OutsideSandbox)),
        Ok(true) => Ok(AdbCommand::ShellExec(String::from_str("mkdir ").concat(path))),
    }
}

} // verus!
