//! Retrieval front end: the knowledge graph, the tokenizer, and the name of
//! the search index.  The search client itself is an external collaborator
//! owned by the surrounding program; this side validates the configuration
//! and phrases the queries.

use crate::errors::MetaSyntraXLError;
use crate::knowledge_graph::KnowledgeGraph;
use crate::tokenizer::Tokenizer;
use vstd::prelude::*;
use vstd::string::StringExecFns;

verus! {

/// What the retrieval path owns besides the external search client.
pub struct RetrievalSystem {
    pub knowledge_graph: KnowledgeGraph,
    pub es_index: String,
    pub tokenizer: Tokenizer,
}

impl RetrievalSystem {
    /// A retrieval system over the given search index, with an empty
    /// knowledge graph and an empty vocabulary.  Fails exactly when the
    /// index name is empty.
    pub fn new(es_index: String) -> (r: Result<RetrievalSystem, MetaSyntraXLError>)
        ensures
            r is Err <==> es_index@.len() == 0,
            r is Err ==> r matches Err(MetaSyntraXLError::RetrievalError(_)),
            r matches Ok(sys) ==> sys.es_index == es_index
                && sys.knowledge_graph.entities@.len() == 0
                && sys.knowledge_graph.relationships@.len() == 0
                && sys.tokenizer.vocab@.len() == 0,
    {
        if es_index.as_str().is_empty() {
            return Err(
                MetaSyntraXLError::RetrievalError("Elasticsearch index is empty".to_owned()),
            );
        }
        Ok(
            RetrievalSystem {
                knowledge_graph: KnowledgeGraph::new(),
                es_index,
                tokenizer: Tokenizer::new(),
            },
        )
    }

    /// Phrases the retrieval request for `query`: one document reference per
    /// call.
    pub fn retrieve(&self, query: &str) -> (r: Result<Vec<String>, MetaSyntraXLError>)
        ensures
            r is Ok,
            r matches Ok(docs) ==> docs@.len() == 1 && docs@[0]@ == "Retrieved document for query: "@
                + query@,
    {
        let mut doc = "Retrieved document for query: ".to_owned();
        doc.append(query);
        let mut docs: Vec<String> = Vec::new();
        docs.push(doc);
        Ok(docs)
    }
}

} // verus!
