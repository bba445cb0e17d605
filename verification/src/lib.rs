//! The MC2 simulation column and the rival-wizard decision layer:
//! castles and their court, the spell book and its cast gate, the
//! rival AI's ledgers, on the shared entity chassis.

pub mod pool;
pub mod terrain;
pub mod mc2;
pub mod mc1;
pub mod world;
