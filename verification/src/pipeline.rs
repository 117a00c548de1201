//! The pipeline as a whole: all producers and consumers, the queues between
//! them, and what holds of them at every moment of a run.
//!
//! A state of the pipeline holds the state of every worker, what every
//! worker's caller is about to do for it, and the messages that wait in
//! every queue. A step is one worker's caller doing what it was told and
//! passing the outcome to the worker's next decision. Workers take their
//! steps in any order, so what is proved of every step from every state that
//! satisfies the invariant holds of every run on any number of threads.
pub mod coverage;
pub mod laws;
pub mod safety;
pub mod state;
pub mod steps;
