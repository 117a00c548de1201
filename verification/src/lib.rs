//! Parallel, bounded-memory file I/O: the decisions of a producer-consumer
//! pipeline that moves a file through a fixed pool of recycled buffers.
//!
//! The crate holds everything the pipeline decides: how a file is cut into
//! chunks, which buffers exist, what a producer and a consumer do with each
//! message they receive, how a positional transfer is retried, and how the
//! results of the workers are combined. Threads, channels and file handles
//! stay with the caller, which performs the actions these functions return.
//!
//! * [`partition`] cuts a file into the ranges of the producers and the
//!   chunks of each range, and proves that the chunks cover the file exactly
//!   once.
//! * [`message`] holds the buffers and the messages that carry them.
//! * [`producer`] and [`consumer`] decide what one worker of the write path
//!   does next; [`read`] holds the consumer of the read path.
//! * [`write`] and [`read`] build the workers and the buffer pool, and
//!   combine the results of the consumers.
//! * [`io`] decides how a buffer is moved to or from a file offset in
//!   several operations.
//! * [`accounting`] adds up what each consumer gets when the producers hand
//!   out their chunks in round-robin order.
//! * [`pipeline`] puts all workers and their queues together and proves what
//!   holds of every run, whatever order the workers run in.
pub mod accounting;
pub mod consumer;
pub mod io;
pub mod message;
pub mod partition;
pub mod pipeline;
pub mod producer;
pub mod read;
pub mod total;
pub mod write;
