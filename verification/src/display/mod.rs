//! The status display: what it shows and when it is drawn again.

pub mod controller;
