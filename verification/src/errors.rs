use vstd::prelude::*;
use vstd::string::*;

verus! {

/// Why a program was not compiled.
#[derive(Debug)]
pub struct CompilerError {
    pub message: String,
}

impl CompilerError {
    pub fn get_message(&self) -> (text: String)
        ensures
            text@ == "Compiler Error: "@ + self.message@,
    {
        String::from_str("Compiler Error: ").concat(self.message.as_str())
    }

    pub fn new(message: &str) -> (error: Self)
        ensures
            error.message@ == message@,
    {
        CompilerError { message: String::from_str(message) }
    }
}

/// Why a text was not parsed.
#[derive(Debug)]
pub struct ParseError {
    pub message: String,
    pub line: u128,
}

impl ParseError {
    pub fn get_message(&self) -> (text: String)
        ensures
            text@ == "Parser Error: "@ + self.message@,
    {
        String::from_str("Parser Error: ").concat(self.message.as_str())
    }

    pub fn new(message: &str, line: u128) -> (error: Self)
        ensures
            error.message@ == message@,
            error.line == line,
    {
        ParseError { message: String::from_str(message), line }
    }
}

/// Why a program stopped before its end.
#[derive(Debug)]
pub struct RuntimeError {
    pub message: String,
}

impl RuntimeError {
    pub fn get_message(&self) -> (text: String)
        ensures
            text@ == "Runtime Error: "@ + self.message@,
    {
        String::from_str("Runtime Error: ").concat(self.message.as_str())
    }

    pub fn new(message: &str) -> (error: Self)
        ensures
            error.message@ == message@,
    {
        RuntimeError { message: String::from_str(message) }
    }
}

} // verus!
