//! An island-model genetic search that approximates a fixed target raster.
//!
//! Candidate rasters are byte genomes. Fitness is kept as an exact fraction
//! (see [`fitness`]), mutation rates as exact ratios (see [`rate`]), so every
//! rule of the search is stated over integers and sequences.

pub mod fitness;
pub mod individual;
pub mod model;
pub mod parallel;
pub mod population;
pub mod random;
pub mod ranking;
pub mod rate;

pub use fitness::Fitness;
pub use individual::Individual;
pub use model::GeneticModel;
pub use population::Population;
pub use rate::calculate_effective_mutation_rate;
pub use rate::Rate;
