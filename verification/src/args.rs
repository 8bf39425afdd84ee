//! The settings of the service that concern the library: where the log goes.

use vstd::prelude::*;

verus! {

/// Where the service writes its log.
#[derive(Clone, Copy, Debug, PartialEq, Eq, Structural)]
pub enum LogMethod {
    /// Log to a file
    File,
    /// Log to a Loki server
    Loki,
    /// Log to stdout
    Stdout,
}

impl LogMethod {
    /// The name of the method in lower case, as it is written in settings.
    pub open spec fn name_text(self) -> Seq<char> {
        match self {
            LogMethod::File => "file"@,
            LogMethod::Loki => "loki"@,
            LogMethod::Stdout => "stdout"@,
        }
    }

    /// The name of the method in lower case, as it is written in settings.
    pub fn name(&self) -> (r: String)
        ensures
            r@ == self.name_text(),
    {
        match self {
            LogMethod::File => "file".to_owned(),
            LogMethod::Loki => "loki".to_owned(),
            LogMethod::Stdout => "stdout".to_owned(),
        }
    }
}

} // verus!
