//! Input decoding and decision logic for a bridge that reads a wired GIP
//! (Game Input Protocol) controller over USB and drives Dolphin's pipe input.

pub mod cli;
pub mod gip;
mod text;
pub mod mapping;
pub mod usb;
pub mod controllers;
pub mod dolphin_pipe;
