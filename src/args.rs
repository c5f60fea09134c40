use vstd::prelude::*;

verus! {

/// The command line: one of four commands.
#[derive(Debug)]
pub struct Cli {
    pub cmd: Commands,
}

/// The four commands.
#[derive(Debug)]
pub enum Commands {
    Encode(EncodeArgs),
    Decode(DecodeArgs),
    Remove(RemoveArgs),
    Print(PrintArgs),
}

/// Hide `message` in a chunk of type `chunk_type` appended to a PNG file.
#[derive(Debug)]
pub struct EncodeArgs {
    pub file_path: String,
    pub chunk_type: String,
    pub message: String,
    pub output_path: Option<String>,
}

/// Show the payload of the first chunk of type `chunk_type`.
#[derive(Debug)]
pub struct DecodeArgs {
    pub file_path: String,
    pub chunk_type: String,
}

/// Remove the first chunk of type `chunk_type`.
#[derive(Debug)]
pub struct RemoveArgs {
    pub file_path: String,
    pub chunk_type: String,
}

/// Show the payload of every chunk.
#[derive(Debug)]
pub struct PrintArgs {
    pub file_path: String,
}

impl EncodeArgs {
    /// Where the result goes: the output path if one was given, else the input file.
    pub fn target_path(&self) -> (r: &String)
        ensures
            self.output_path is Some ==> r == self.output_path->Some_0,
            self.output_path is None ==> r == self.file_path,
    {
        match &self.output_path {
            Some(p) => p,
            None => &self.file_path,
        }
    }
}

} // verus!
