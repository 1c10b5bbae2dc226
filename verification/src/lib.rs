//! Game engine, rules and strategies for the cooperative board game
//! "Geister Geister Schatzsuchmeister", with their contracts proved by Verus.
pub mod action;
pub mod batch;
pub mod board;
pub mod engine;
pub mod game;
pub mod greedy;
pub mod laws;
pub mod log_format;
pub mod observation;
pub mod preservation;
pub mod random;
pub mod rng;
pub mod rules;
pub mod search;
pub mod simulation;
pub mod state;
pub mod step;
pub mod strategy;
pub mod validity;
pub mod variant;
pub mod vocabulary;
