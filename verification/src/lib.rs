//! Parsing of Move toolchain diagnostic output.
//!
//! The library turns raw, ANSI-coloured compiler and test-runner output into
//! structured diagnostic records (file, line, column, code, body), classifies
//! test-runner stdout into a verdict, and assembles the merged result of a
//! build-then-test validation run.

pub mod text;

pub mod sanitize;

pub mod location;

pub mod records;

pub mod scanner;

pub mod verdict;

pub mod service;
