pub mod audio;
pub mod commands;
pub mod matrix_config;
pub mod mixer;
pub mod patchbay;
pub mod profiles;
pub mod seqs;
pub mod soundboard;
pub mod text;
