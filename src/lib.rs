// A local control plane for a search service: the line-delimited JSON-RPC
// protocol and its dispatch, the text walk that feeds indexing, the indexing
// pipeline and its jobs, and the fusion of the search backends' answers.

pub mod indexing;
pub mod jobs;
pub mod json;
pub mod protocol;
pub mod rpc;
pub mod search;
pub mod text;
pub mod walk;
