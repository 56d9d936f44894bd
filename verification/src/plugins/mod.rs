pub mod comment;
pub mod page_include;
pub mod accordion;
pub mod marquee;
pub mod calendar;
pub mod ls;
pub mod variable;
