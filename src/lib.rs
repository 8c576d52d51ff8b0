// Forward-time population simulation that records ancestry as nodes and
// edges: the step rules of each reproduction model, recombination mosaics, the
// batches of records handed to an ancestry table, id remapping after
// simplification, replicate seeds and parameter checks.

pub mod ancestry;
pub mod diploid;
pub mod laws;
pub mod models;
pub mod partition;
pub mod recombination;
pub mod remap;
pub mod rng;
pub mod seeding;
pub mod survival;
