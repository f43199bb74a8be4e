//! Bourbaki: read mathematics textbooks with a tutor. The verified core of the
//! app: locating selected text in a page's LaTeX, the ChatGPT sign-in and session,
//! the ingestion run, retrieval ranking and the tutoring conversation.

pub mod chatgpt_session;
pub mod db;
pub mod embed_sidecar;
pub mod ingest;
pub mod json;
pub mod memory;
pub mod openai;
pub mod pkce;
pub mod selection_map;
pub mod session;
pub mod text;
pub mod turn;

use vstd::prelude::*;

verus! {

#[verifier::external_type_specification]
#[verifier::external_body]
pub struct ExPathBuf(std::path::PathBuf);

/// Where the app keeps its files.
pub struct PathsState {
    pub db_path: std::path::PathBuf,
}

} // verus!
