use vstd::prelude::*;

verus! {

/// A command that needs a target was given none.
pub struct MissingDevice {
    pub command: String,
}

/// The target given for `command`, or the error that names the command.
pub fn require_device(device: &Option<String>, command: &str) -> (r: Result<String, MissingDevice>)
    ensures
        match *device {
            Some(d) => r matches Ok(s) && s@ == d@,
            None => r matches Err(e) && e.command@ == command@,
        },
{
    match device {
        Some(d) => Ok(d.clone()),
        None => Err(MissingDevice { command: String::from_str(command) }),
    }
}

} // verus!
