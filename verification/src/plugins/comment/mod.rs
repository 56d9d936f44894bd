pub mod comment;
pub mod rtcomment;
