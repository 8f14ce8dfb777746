use vstd::prelude::*;

verus! {

/// What the recording tool is asked to do.
#[derive(Debug, PartialEq, Eq, Structural)]
pub enum Command {
    Save,
    Replay,
}

/// Reads the command word, as given on the command line.
pub fn get_command(arg: Option<String>) -> (r: Option<Command>)
    ensures
        r == (match arg {
            Some(a) => if a@ == "save"@ {
                Some(Command::Save)
            } else if a@ == "replay"@ {
                Some(Command::Replay)
            } else {
                None
            },
            None => None,
        }),
{
    match arg {
        Some(a) => {
            if a == "save".to_string() {
                Some(Command::Save)
            } else if a == "replay".to_string() {
                Some(Command::Replay)
            } else {
                None
            }
        },
        None => None,
    }
}

} // verus!
