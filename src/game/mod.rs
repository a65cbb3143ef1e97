pub mod chain;
pub mod pinyin_utils;
pub mod seats;
pub mod pinyin;
pub mod room;
pub mod view;
pub mod mode;
