pub mod detector;
pub mod detectors;
pub mod detects;
pub mod exporter;
pub mod graph;
pub mod option;
pub mod printer;
pub mod result;
