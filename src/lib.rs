// An interactive command shell's line processing, verified: the tokenizer
// with its quoting rules (`token`), the planner that splits a line into
// pipeline stages and redirections (`plan`), the builtins (`builtin`), the
// execution decisions for single commands and pipelines (`engine`), and the
// line editor with tab completion (`editor`).  Reading the terminal, touching
// files and starting processes is left to the program around the library.
pub mod text;
pub mod token;
pub mod plan;
pub mod builtin;
pub mod engine;
pub mod editor;
