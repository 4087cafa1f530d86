//! The logic of three small file servers (FTP, TFTP and HTTP) and of the window that controls them.

pub mod app;
pub mod clock;
pub mod common;
pub mod controls;
pub mod digits;
pub mod exchange;
pub mod ftp;
pub mod httpd;
pub mod icon;
pub mod lines;
pub mod pages;
pub mod paths;
pub mod sizes;
pub mod text;
pub mod tftp;
pub mod transfer;
pub mod unicode;
