pub mod tokenizer;
pub mod cmd;
