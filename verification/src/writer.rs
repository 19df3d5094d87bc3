//! Where the results go.

use vstd::prelude::*;

verus! {

/// The file that the results are written to.
pub struct Writer {
    output_file_name: String,
}

impl Writer {
    /// The name of the file.
    pub closed spec fn output_file_name(&self) -> Seq<char> {
        self.output_file_name@
    }

    /// A writer to the file of the given name.
    pub fn new(output_file_name: &str) -> (writer: Self)
        ensures
            writer.output_file_name() == output_file_name@,
    {
        Writer { output_file_name: output_file_name.to_owned() }
    }

    /// The name of the file.
    pub fn get_output_file_name(&self) -> (name: &str)
        ensures
            name@ == self.output_file_name(),
    {
        self.output_file_name.as_str()
    }
}

} // verus!
