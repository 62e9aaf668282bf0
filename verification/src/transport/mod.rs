pub mod fragment;
pub mod reliable;
pub mod link;
