//! A pixel-sorting engine for a kiosk, and the rules of the kiosk around it.
//!
//! The engine reorders the colours of an image inside runs that it finds
//! along horizontal, vertical or diagonal scanlines, optionally rotates
//! every hue afterwards, and composes with a crop step:
//!
//! - `color`, `key`, `tint`: pixels, their sort keys, and the hue rotation;
//! - `segment`, `sorter`, `line`: the runs of a scanline and their stable sort;
//! - `image`, `scan`, `engine`, `crop`: whole images, their scanlines, the
//!   sort and the crop compositor;
//! - `laws`: what holds of every sort.
//!
//! Around the engine stand the decisions of the application, each a function
//! from what is known to what is to be done, with nothing read or written
//! here: `session` (the image being edited and its crop rectangle), `kiosk`
//! (splash screen, sleep and menus), `power` (the battery monitor), `config`,
//! `usb`, `system` and `text` (files and command output), and `icon`.
//!
//! Every function is verified against a contract over sequences of pixels
//! and bytes; brightness, hue and voltage are fixed-point integers.

pub mod color;
pub mod config;
pub mod crop;
pub mod engine;
pub mod icon;
pub mod image;
pub mod key;
pub mod kiosk;
pub mod laws;
pub mod line;
pub mod params;
pub mod power;
pub mod scan;
pub mod segment;
pub mod session;
pub mod sorter;
pub mod system;
pub mod text;
pub mod tint;
pub mod usb;
