//! Connection parameters for the two remote collaborators: the document
//! source and the vector index. The values arrive already loaded (from the
//! environment, a file, or a test); the core only checks that none of them
//! is missing before any remote work starts.

use vstd::prelude::*;

verus! {

/// A missing or empty connection parameter, named. Configuration faults are
/// fatal at startup: nothing runs partially configured.
#[derive(Debug)]
pub enum ConfigurationError {
    MissingUrl,
    MissingUsername,
    MissingApiKey,
    MissingModel,
    MissingCollectionName,
    ZeroDimension,
}

/// Where and as whom to reach the document source.
pub struct ConfluenceConfig {
    pub confluence_url: String,
    pub confluence_username: String,
    pub confluence_api_key: String,
}

impl ConfluenceConfig {
    /// Accepts the three parameters exactly when none is empty; the first
    /// missing one, in url, username, key order, names the error.
    pub fn new(url: String, username: String, api_key: String) -> (r: Result<
        ConfluenceConfig,
        ConfigurationError,
    >)
        ensures
            match r {
                Ok(c) => c.confluence_url@ == url@ && c.confluence_username@ == username@
                    && c.confluence_api_key@ == api_key@ && url@.len() > 0 && username@.len() > 0
                    && api_key@.len() > 0,
                Err(e) => {
                    &&& (url@.len() == 0 || username@.len() == 0 || api_key@.len() == 0)
                    &&& e is MissingUrl <==> url@.len() == 0
                    &&& e is MissingUsername <==> (url@.len() > 0 && username@.len() == 0)
                    &&& e is MissingApiKey <==> (url@.len() > 0 && username@.len() > 0
                        && api_key@.len() == 0)
                },
            },
    {
        if url.as_str().is_empty() {
            Err(ConfigurationError::MissingUrl)
        } else if username.as_str().is_empty() {
            Err(ConfigurationError::MissingUsername)
        } else if api_key.as_str().is_empty() {
            Err(ConfigurationError::MissingApiKey)
        } else {
            Ok(ConfluenceConfig { confluence_url: url, confluence_username: username, confluence_api_key: api_key })
        }
    }
}

/// How to reach the embedding service: the key it is called with, the
/// model that computes the vectors, and the dimension those vectors must
/// have. Changing the model invalidates every vector already stored; that
/// is an operational hazard, not something the core can check at run
/// time.
pub struct EmbeddingConfig {
    pub api_key: String,
    pub model: String,
    pub dimension: usize,
}

impl EmbeddingConfig {
    /// Accepts the parameters exactly when the key and model name are
    /// non-empty and the dimension is positive.
    pub fn new(api_key: String, model: String, dimension: usize) -> (r: Result<
        EmbeddingConfig,
        ConfigurationError,
    >)
        ensures
            match r {
                Ok(c) => c.api_key@ == api_key@ && c.model@ == model@ && c.dimension == dimension
                    && api_key@.len() > 0 && model@.len() > 0 && dimension > 0,
                Err(e) => {
                    &&& (api_key@.len() == 0 || model@.len() == 0 || dimension == 0)
                    &&& e is MissingApiKey <==> api_key@.len() == 0
                    &&& e is MissingModel <==> (api_key@.len() > 0 && model@.len() == 0)
                    &&& e is ZeroDimension <==> (api_key@.len() > 0 && model@.len() > 0
                        && dimension == 0)
                },
            },
    {
        if api_key.as_str().is_empty() {
            Err(ConfigurationError::MissingApiKey)
        } else if model.as_str().is_empty() {
            Err(ConfigurationError::MissingModel)
        } else if dimension == 0 {
            Err(ConfigurationError::ZeroDimension)
        } else {
            Ok(EmbeddingConfig { api_key, model, dimension })
        }
    }
}

/// Where the vector index lives and which collection the core works in,
/// together with the dimension every vector of that collection must have.
pub struct QdrantConfig {
    pub qdrant_url: String,
    pub collection_name: String,
    pub dimension: usize,
}

impl QdrantConfig {
    /// Accepts the parameters exactly when the url and collection name are
    /// non-empty and the dimension is positive.
    pub fn new(url: String, collection_name: String, dimension: usize) -> (r: Result<
        QdrantConfig,
        ConfigurationError,
    >)
        ensures
            match r {
                Ok(c) => c.qdrant_url@ == url@ && c.collection_name@ == collection_name@
                    && c.dimension == dimension && url@.len() > 0 && collection_name@.len() > 0
                    && dimension > 0,
                Err(e) => {
                    &&& (url@.len() == 0 || collection_name@.len() == 0 || dimension == 0)
                    &&& e is MissingUrl <==> url@.len() == 0
                    &&& e is MissingCollectionName <==> (url@.len() > 0 && collection_name@.len()
                        == 0)
                    &&& e is ZeroDimension <==> (url@.len() > 0 && collection_name@.len() > 0
                        && dimension == 0)
                },
            },
    {
        if url.as_str().is_empty() {
            Err(ConfigurationError::MissingUrl)
        } else if collection_name.as_str().is_empty() {
            Err(ConfigurationError::MissingCollectionName)
        } else if dimension == 0 {
            Err(ConfigurationError::ZeroDimension)
        } else {
            Ok(QdrantConfig { qdrant_url: url, collection_name, dimension })
        }
    }

    /// The configured address of the vector index service.
    pub fn get_url(&self) -> (r: String)
        ensures
            r@ == self.qdrant_url@,
    {
        self.qdrant_url.clone()
    }
}

} // verus!
