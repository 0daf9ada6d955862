use vstd::prelude::*;
use vstd::string::StringExecFns;

verus! {

/// The ways in which a request to the control layer can fail.
#[derive(Clone, Copy, Debug, PartialEq, Eq, Structural)]
pub enum ControlError {
    /// The device id is not known to the session.
    UnknownDevice,
    /// A track id is not a valid base62 identifier.
    MalformedIdentifier,
    /// A queue-changing request carried no `id` field.
    MissingRequiredField,
    /// The transport command token is not one of the known commands.
    UnknownCommand,
}

impl ControlError {
    /// The HTTP status code that this error is reported with.
    pub fn status(&self) -> (r: u16)
        ensures
            r == self.spec_status(),
    {
        match self {
            ControlError::UnknownDevice => 404,
            ControlError::MalformedIdentifier => 400,
            ControlError::MissingRequiredField => 400,
            ControlError::UnknownCommand => 404,
        }
    }

    /// The plain-text message that this error is reported with.
    pub fn message(&self) -> (r: String)
        ensures
            r@ == self.spec_message(),
    {
        match self {
            ControlError::UnknownDevice => String::from_str("Unknown device id."),
            ControlError::MalformedIdentifier => String::from_str("Malformed track id."),
            ControlError::MissingRequiredField => String::from_str("Missing id field."),
            ControlError::UnknownCommand => String::from_str("Unknown command."),
        }
    }

    pub open spec fn spec_message(&self) -> Seq<char> {
        match self {
            ControlError::UnknownDevice => "Unknown device id."@,
            ControlError::MalformedIdentifier => "Malformed track id."@,
            ControlError::MissingRequiredField => "Missing id field."@,
            ControlError::UnknownCommand => "Unknown command."@,
        }
    }

    pub open spec fn spec_status(&self) -> u16 {
        match self {
            ControlError::UnknownDevice => 404,
            ControlError::MalformedIdentifier => 400,
            ControlError::MissingRequiredField => 400,
            ControlError::UnknownCommand => 404,
        }
    }
}

} // verus!
