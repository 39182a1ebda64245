//! The versioned local knowledge base: snapshots, synchronisation, selection.

use vstd::prelude::*;
use vstd::string::*;

use crate::model::{copy_list, copy_opt};

verus! {

/// A passage that the keyword search ranked. The score is kept as the bits of
/// the floating-point number that the search reports.
#[derive(Debug, PartialEq, Eq)]
pub struct KnowledgeCandidate {
    pub raw_rank: usize,
    pub revision_id: String,
    pub source_id: String,
    pub document_key: String,
    pub title: String,
    pub source_location: String,
    pub fetched_at: String,
    pub start_char: usize,
    pub end_char: usize,
    pub content_sha256: String,
    pub span_sha256: String,
    pub bm25_score_bits: u64,
    pub selected: bool,
    pub reason: String,
}

impl Clone for KnowledgeCandidate {
    fn clone(&self) -> (r: Self)
        ensures
            r == *self,
    {
        KnowledgeCandidate {
            raw_rank: self.raw_rank,
            revision_id: self.revision_id.clone(),
            source_id: self.source_id.clone(),
            document_key: self.document_key.clone(),
            title: self.title.clone(),
            source_location: self.source_location.clone(),
            fetched_at: self.fetched_at.clone(),
            start_char: self.start_char,
            end_char: self.end_char,
            content_sha256: self.content_sha256.clone(),
            span_sha256: self.span_sha256.clone(),
            bm25_score_bits: self.bm25_score_bits,
            selected: self.selected,
            reason: self.reason.clone(),
        }
    }
}

/// A passage given to the model.
#[derive(Debug, PartialEq, Eq)]
pub struct KnowledgeEvidence {
    pub revision_id: String,
    pub source_id: String,
    pub document_key: String,
    pub title: String,
    pub source_location: String,
    pub fetched_at: String,
    pub start_char: usize,
    pub end_char: usize,
    pub content_sha256: String,
    pub span_sha256: String,
}

impl Clone for KnowledgeEvidence {
    fn clone(&self) -> (r: Self)
        ensures
            r == *self,
    {
        KnowledgeEvidence {
            revision_id: self.revision_id.clone(),
            source_id: self.source_id.clone(),
            document_key: self.document_key.clone(),
            title: self.title.clone(),
            source_location: self.source_location.clone(),
            fetched_at: self.fetched_at.clone(),
            start_char: self.start_char,
            end_char: self.end_char,
            content_sha256: self.content_sha256.clone(),
            span_sha256: self.span_sha256.clone(),
        }
    }
}

/// What one knowledge retrieval did.
#[derive(Debug, PartialEq, Eq)]
pub struct KnowledgeTrace {
    pub status: String,
    pub query_terms: Vec<String>,
    pub candidate_limit: usize,
    pub max_selected: usize,
    pub evidence_char_budget: usize,
    pub candidates: Vec<KnowledgeCandidate>,
    pub selected_evidence: Vec<KnowledgeEvidence>,
    pub injected_message: Option<String>,
    pub warnings: Vec<String>,
    pub error: Option<String>,
}

impl KnowledgeTrace {
    pub open spec fn same(self, o: KnowledgeTrace) -> bool {
        &&& self.status == o.status
        &&& self.query_terms@ == o.query_terms@
        &&& self.candidate_limit == o.candidate_limit
        &&& self.max_selected == o.max_selected
        &&& self.evidence_char_budget == o.evidence_char_budget
        &&& self.candidates@ == o.candidates@
        &&& self.selected_evidence@ == o.selected_evidence@
        &&& self.injected_message == o.injected_message
        &&& self.warnings@ == o.warnings@
        &&& self.error == o.error
    }

    /// The trace of a retrieval that did not run.
    pub open spec fn not_run(self) -> bool {
        &&& self.status@ == "not_run"@
        &&& self.query_terms@.len() == 0
        &&& self.candidate_limit == 64
        &&& self.max_selected == 4
        &&& self.evidence_char_budget == 3200
        &&& self.candidates@.len() == 0
        &&& self.selected_evidence@.len() == 0
        &&& self.injected_message is None
        &&& self.warnings@.len() == 0
        &&& self.error is None
    }
}

impl Clone for KnowledgeTrace {
    fn clone(&self) -> (r: Self)
        ensures
            r.same(*self),
    {
        KnowledgeTrace {
            status: self.status.clone(),
            query_terms: copy_list(&self.query_terms),
            candidate_limit: self.candidate_limit,
            max_selected: self.max_selected,
            evidence_char_budget: self.evidence_char_budget,
            candidates: copy_list(&self.candidates),
            selected_evidence: copy_list(&self.selected_evidence),
            injected_message: copy_opt(&self.injected_message),
            warnings: copy_list(&self.warnings),
            error: copy_opt(&self.error),
        }
    }
}

impl Default for KnowledgeTrace {
    fn default() -> (r: Self)
        ensures
            r.not_run(),
    {
        KnowledgeTrace {
            status: "not_run".to_owned(),
            query_terms: Vec::new(),
            candidate_limit: 64,
            max_selected: 4,
            evidence_char_budget: 3200,
            candidates: Vec::new(),
            selected_evidence: Vec::new(),
            injected_message: None,
            warnings: Vec::new(),
            error: None,
        }
    }
}

/// The result of a knowledge retrieval.
#[derive(Clone, Debug, PartialEq, Eq)]
pub struct KnowledgeRecall {
    pub trace: KnowledgeTrace,
}

} // verus!
