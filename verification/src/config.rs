//! The configuration of indexing and search. Defaults give way to a
//! configuration file in TOML, that to one in JSON, and that to the
//! variables of the environment.

use crate::paths::{abs_chars, abs_of};
use crate::search_error::SearchError;
use crate::text::{chars_of, string_of};
use vstd::prelude::*;

verus! {

/// How the embedding service is reached.
#[derive(Debug)]
pub struct EmbeddingConfig {
    pub api_key: Option<String>,
    pub api_base: String,
    pub model: String,
    /// The length of the vectors that the model is expected to give.
    pub dimensions: usize,
    /// The largest number of texts in one request.
    pub batch_size: usize,
}

/// How documents are chunked and how many results a search gives.
#[derive(Debug)]
pub struct SearchBehaviorConfig {
    pub default_limit: usize,
    /// The largest chunk, in characters.
    pub chunk_size: usize,
    /// How many characters a chunk repeats of the chunk before it.
    pub chunk_overlap: usize,
}

/// Where the index is kept.
#[derive(Debug, Default)]
pub struct PathsConfig {
    pub lancedb_path: Option<String>,
    pub index_metadata_path: Option<String>,
}

/// The whole configuration.
#[derive(Debug, Default)]
pub struct SearchConfig {
    pub embedding: EmbeddingConfig,
    pub search: SearchBehaviorConfig,
    pub paths: PathsConfig,
}

/// The settings of a configuration file in JSON, under the current
/// names and under the older ones.
#[derive(Debug, Default)]
pub struct NodeJsConfig {
    pub embedding_api_key: Option<String>,
    pub embedding_api_base: Option<String>,
    pub embedding_model: Option<String>,
    pub openai_api_key: Option<String>,
    pub openai_base_url: Option<String>,
}

/// What the surroundings of the process say about the configuration.
#[derive(Debug, Default)]
pub struct SearchSurroundings {
    /// `OPENCONTEXT_ROOT`
    pub root_var: Option<String>,
    pub home_dir: Option<String>,
    /// `EMBEDDING_API_BASE`
    pub embedding_api_base: Option<String>,
    /// `OPENAI_API_BASE`
    pub openai_api_base: Option<String>,
    /// `EMBEDDING_API_KEY`
    pub embedding_api_key: Option<String>,
    /// `OPENAI_API_KEY`
    pub openai_api_key: Option<String>,
    /// `OPENAI_KEY`
    pub openai_key: Option<String>,
    /// `EMBEDDING_MODEL`
    pub embedding_model: Option<String>,
}

/// The view of an optional text.
pub open spec fn opt_text(text: Option<String>) -> Option<Seq<char>> {
    match text {
        Some(t) => Some(t@),
        None => None,
    }
}

/// The first of two optional texts that is present.
pub open spec fn first_of(first: Option<String>, second: Option<String>) -> Option<Seq<char>> {
    match first {
        Some(t) => Some(t@),
        None => opt_text(second),
    }
}

/// The first of two optional texts that is present.
fn first_present(first: &Option<String>, second: &Option<String>) -> (r: Option<String>)
    ensures
        opt_text(r) == first_of(*first, *second),
{
    match first {
        Some(t) => Some(t.clone()),
        None => match second {
            Some(t) => Some(t.clone()),
            None => None,
        },
    }
}

/// The model that is used where none is configured.
pub fn default_model() -> (m: String)
    ensures
        m@ == "text-embedding-3-small"@,
{
    "text-embedding-3-small".to_owned()
}

/// The vector length that is expected where none is configured.
pub fn default_dimensions() -> (n: usize)
    ensures
        n == 1536,
{
    1536
}

/// The number of texts in one request where none is configured.
pub fn default_batch_size() -> (n: usize)
    ensures
        n == 10,
{
    10
}

/// The number of results where none is configured.
pub fn default_limit() -> (n: usize)
    ensures
        n == 10,
{
    10
}

/// The chunk size where none is configured.
pub fn default_chunk_size() -> (n: usize)
    ensures
        n == 1500,
{
    1500
}

/// The chunk overlap where none is configured.
pub fn default_chunk_overlap() -> (n: usize)
    ensures
        n == 200,
{
    200
}

impl Default for EmbeddingConfig {
    fn default() -> (c: EmbeddingConfig)
        ensures
            c.api_key is None,
            c.api_base@ == "https://api.openai.com/v1"@,
            c.model@ == "text-embedding-3-small"@,
            c.dimensions == 1536,
            c.batch_size == 10,
    {
        EmbeddingConfig {
            api_key: None,
            api_base: "https://api.openai.com/v1".to_owned(),
            model: default_model(),
            dimensions: default_dimensions(),
            batch_size: default_batch_size(),
        }
    }
}

impl Default for SearchBehaviorConfig {
    fn default() -> (c: SearchBehaviorConfig)
        ensures
            c.default_limit == 10,
            c.chunk_size == 1500,
            c.chunk_overlap == 200,
    {
        SearchBehaviorConfig {
            default_limit: default_limit(),
            chunk_size: default_chunk_size(),
            chunk_overlap: default_chunk_overlap(),
        }
    }
}

/// The key that requests are signed with: the configured one unless it
/// is empty, else `OPENAI_API_KEY`, else `OPENAI_KEY`.
pub open spec fn api_key_of(c: EmbeddingConfig, around: SearchSurroundings) -> Option<Seq<char>> {
    match c.api_key {
        Some(key) => if key@.len() > 0 {
            Some(key@)
        } else {
            first_of(around.openai_api_key, around.openai_key)
        },
        None => first_of(around.openai_api_key, around.openai_key),
    }
}

impl EmbeddingConfig {
    /// The key that requests are signed with.
    pub fn get_api_key(&self, around: &SearchSurroundings) -> (r: Result<String, SearchError>)
        ensures
            match r {
                Ok(key) => api_key_of(*self, *around) == Some(key@),
                Err(e) => api_key_of(*self, *around) is None && e is ApiKeyMissing,
            },
    {
        match &self.api_key {
            Some(key) => {
                if key.as_str().unicode_len() > 0 {
                    return Ok(key.clone());
                }
            },
            None => {},
        }
        match first_present(&around.openai_api_key, &around.openai_key) {
            Some(key) => Ok(key),
            None => Err(SearchError::ApiKeyMissing),
        }
    }
}

/// The directory of the configuration: `OPENCONTEXT_ROOT`, else
/// `.opencontext` in the home directory, else `.opencontext` where the
/// process runs.
pub open spec fn config_dir_of(around: SearchSurroundings) -> Seq<char> {
    match around.root_var {
        Some(root) => root@,
        None => match around.home_dir {
            Some(home) => abs_of(home@, ".opencontext"@),
            None => ".opencontext"@,
        },
    }
}

/// `name` inside the directory `dir`.
fn inside(dir: &str, name: &str) -> (r: String)
    ensures
        r@ == abs_of(dir@, name@),
{
    string_of(&abs_chars(&chars_of(dir), &chars_of(name)))
}

/// The directory of the configuration.
fn config_dir(around: &SearchSurroundings) -> (r: String)
    ensures
        r@ == config_dir_of(*around),
{
    match &around.root_var {
        Some(root) => root.clone(),
        None => match &around.home_dir {
            Some(home) => inside(home.as_str(), ".opencontext"),
            None => ".opencontext".to_owned(),
        },
    }
}

impl PathsConfig {
    /// Where the vector store is kept: the configured path, else
    /// `lancedb` in the directory of the configuration.
    pub fn get_lancedb_path(&self, around: &SearchSurroundings) -> (r: String)
        ensures
            r@ == match self.lancedb_path {
                Some(p) => p@,
                None => abs_of(config_dir_of(*around), "lancedb"@),
            },
    {
        match &self.lancedb_path {
            Some(p) => p.clone(),
            None => inside(config_dir(around).as_str(), "lancedb"),
        }
    }

    /// Where the index metadata is kept: the configured path, else
    /// `index-metadata.json` in the directory of the configuration.
    pub fn get_index_metadata_path(&self, around: &SearchSurroundings) -> (r: String)
        ensures
            r@ == match self.index_metadata_path {
                Some(p) => p@,
                None => abs_of(config_dir_of(*around), "index-metadata.json"@),
            },
    {
        match &self.index_metadata_path {
            Some(p) => p.clone(),
            None => inside(config_dir(around).as_str(), "index-metadata.json"),
        }
    }
}

/// `current`, or `given` where it is present and not empty.
pub open spec fn unless_empty(given: Option<Seq<char>>, current: Seq<char>) -> Seq<char> {
    match given {
        Some(t) => if t.len() > 0 {
            t
        } else {
            current
        },
        None => current,
    }
}

/// The key after the JSON file and the environment have been heard.
pub open spec fn loaded_api_key(
    base: Option<Seq<char>>,
    file: Option<NodeJsConfig>,
    around: SearchSurroundings,
) -> Option<Seq<char>> {
    let from_file = match file {
        Some(f) => match first_of(f.embedding_api_key, f.openai_api_key) {
            Some(key) => if key.len() > 0 {
                Some(key)
            } else {
                base
            },
            None => base,
        },
        None => base,
    };
    match first_of(around.embedding_api_key, around.openai_api_key) {
        Some(key) => Some(key),
        None => from_file,
    }
}

/// The address of the service after the JSON file and the environment
/// have been heard.
pub open spec fn loaded_api_base(
    base: Seq<char>,
    file: Option<NodeJsConfig>,
    around: SearchSurroundings,
) -> Seq<char> {
    let from_file = match file {
        Some(f) => unless_empty(first_of(f.embedding_api_base, f.openai_base_url), base),
        None => base,
    };
    match first_of(around.embedding_api_base, around.openai_api_base) {
        Some(address) => address,
        None => from_file,
    }
}

/// The model after the JSON file and the environment have been heard.
pub open spec fn loaded_model(
    base: Seq<char>,
    file: Option<NodeJsConfig>,
    around: SearchSurroundings,
) -> Seq<char> {
    let from_file = match file {
        Some(f) => unless_empty(opt_text(f.embedding_model), base),
        None => base,
    };
    match around.embedding_model {
        Some(model) => model@,
        None => from_file,
    }
}

/// `given` where it is present and not empty.
fn non_empty_text(given: Option<String>) -> (r: Option<String>)
    ensures
        match given {
            Some(t) => if t@.len() > 0 {
                r == Some(t)
            } else {
                r is None
            },
            None => r is None,
        },
{
    match given {
        Some(t) => {
            if t.as_str().unicode_len() > 0 {
                Some(t)
            } else {
                None
            }
        },
        None => None,
    }
}

impl SearchConfig {
    /// The configuration in force. `from_toml` is what the TOML file
    /// held, `from_json` what the JSON file held, each absent where the
    /// file was missing or unreadable. The JSON file and the environment
    /// touch key, address and model only; a setting of the environment
    /// counts even where it is empty.
    pub fn load(
        from_toml: Option<SearchConfig>,
        from_json: Option<NodeJsConfig>,
        around: &SearchSurroundings,
    ) -> (r: Result<SearchConfig, SearchError>)
        ensures
            r matches Ok(c) && {
                let base_key = match from_toml {
                    Some(t) => opt_text(t.embedding.api_key),
                    None => None,
                };
                let base_address = match from_toml {
                    Some(t) => t.embedding.api_base@,
                    None => "https://api.openai.com/v1"@,
                };
                let base_model = match from_toml {
                    Some(t) => t.embedding.model@,
                    None => "text-embedding-3-small"@,
                };
                &&& opt_text(c.embedding.api_key) == loaded_api_key(base_key, from_json, *around)
                &&& c.embedding.api_base@ == loaded_api_base(base_address, from_json, *around)
                &&& c.embedding.model@ == loaded_model(base_model, from_json, *around)
                &&& c.embedding.dimensions == match from_toml {
                    Some(t) => t.embedding.dimensions,
                    None => 1536,
                }
                &&& c.embedding.batch_size == match from_toml {
                    Some(t) => t.embedding.batch_size,
                    None => 10,
                }
                &&& match from_toml {
                    Some(t) => c.search == t.search && c.paths == t.paths,
                    None => c.search.default_limit == 10 && c.search.chunk_size == 1500
                        && c.search.chunk_overlap == 200 && c.paths.lancedb_path is None
                        && c.paths.index_metadata_path is None,
                }
            },
    {
        let mut config = match from_toml {
            Some(t) => t,
            None => SearchConfig {
                embedding: EmbeddingConfig::default(),
                search: SearchBehaviorConfig::default(),
                paths: PathsConfig { lancedb_path: None, index_metadata_path: None },
            },
        };
        match &from_json {
            Some(file) => {
                match non_empty_text(first_present(&file.embedding_api_key, &file.openai_api_key)) {
                    Some(key) => {
                        config.embedding.api_key = Some(key);
                    },
                    None => {},
                }
                match non_empty_text(
                    first_present(&file.embedding_api_base, &file.openai_base_url),
                ) {
                    Some(address) => {
                        config.embedding.api_base = address;
                    },
                    None => {},
                }
                match non_empty_text(first_present(&file.embedding_model, &None)) {
                    Some(model) => {
                        config.embedding.model = model;
                    },
                    None => {},
                }
            },
            None => {},
        }
        match first_present(&around.embedding_api_base, &around.openai_api_base) {
            Some(address) => {
                config.embedding.api_base = address;
            },
            None => {},
        }
        match first_present(&around.embedding_api_key, &around.openai_api_key) {
            Some(key) => {
                config.embedding.api_key = Some(key);
            },
            None => {},
        }
        match &around.embedding_model {
            Some(model) => {
                config.embedding.model = model.clone();
            },
            None => {},
        }
        Ok(config)
    }

    /// The path of the configuration file in JSON.
    pub fn json_config_path(around: &SearchSurroundings) -> (r: String)
        ensures
            r@ == abs_of(config_dir_of(*around), "config.json"@),
    {
        inside(config_dir(around).as_str(), "config.json")
    }

    /// The path of the configuration file in TOML.
    pub fn toml_config_path(around: &SearchSurroundings) -> (r: String)
        ensures
            r@ == abs_of(config_dir_of(*around), "config.toml"@),
    {
        inside(config_dir(around).as_str(), "config.toml")
    }

    /// The path of the configuration file that is read by default.
    pub fn config_path(around: &SearchSurroundings) -> (r: String)
        ensures
            r@ == abs_of(config_dir_of(*around), "config.json"@),
    {
        SearchConfig::json_config_path(around)
    }
}

} // verus!
