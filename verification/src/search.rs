use vstd::prelude::*;

use crate::types::CoordId;
use crate::value::{view_entries, SpecValue, Value};

verus! {

/// Failures of the search subsystem.
#[derive(Debug)]
pub enum VectorError {
    /// The vector backend failed; the payload describes how.
    Backend(String),
    /// Embedding generation failed.
    Embedding(String),
    /// A vector had the wrong number of dimensions.
    InvalidDimension { expected: usize, actual: usize },
    /// No collection with the given name.
    CollectionNotFound(String),
}

/// Counts describing a vector collection.
#[derive(Debug, Clone)]
pub struct VectorStats {
    pub total_vectors: u64,
    pub dimension: usize,
    pub indexed_vectors: u64,
}

/// Configuration of a vector store.
#[derive(Debug, Clone)]
pub struct VectorConfig {
    pub storage_path: String,
    pub collection_name: String,
    pub dimension: usize,
    pub hnsw_m: usize,
    pub hnsw_ef_construct: usize,
}

impl Default for VectorConfig {
    /// The stock configuration: a local store directory, one
    /// collection, 384-dimensional vectors.
    fn default() -> (r: VectorConfig)
        ensures
            r.storage_path@ == "./qdrant_data"@,
            r.collection_name@ == "bms_memory"@,
            r.dimension == 384,
            r.hnsw_m == 32,
            r.hnsw_ef_construct == 200,
    {
        VectorConfig {
            storage_path: "./qdrant_data".to_owned(),
            collection_name: "bms_memory".to_owned(),
            dimension: 384,
            hnsw_m: 32,
            hnsw_ef_construct: 200,
        }
    }
}

/// How many results a search returns when the caller does not say.
pub fn default_limit() -> (r: usize)
    ensures
        r == 10,
{
    10
}

/// Model of search metadata.
pub struct SpecVectorMetadata {
    pub coord_id: Seq<char>,
    pub created_at: Seq<char>,
    pub author: Option<Seq<char>>,
    pub tags: Seq<Seq<char>>,
    pub custom: Seq<(Seq<char>, SpecValue)>,
}

/// Metadata attached to an embedding: not canonical state, only search
/// hints.
pub struct VectorMetadata {
    pub coord_id: CoordId,
    pub created_at: String,
    pub author: Option<String>,
    pub tags: Vec<String>,
    pub custom: Vec<(String, Value)>,
}

pub open spec fn view_strings(s: Seq<String>) -> Seq<Seq<char>> {
    Seq::new(s.len(), |i: int| s[i]@)
}

impl View for VectorMetadata {
    type V = SpecVectorMetadata;

    open spec fn view(&self) -> SpecVectorMetadata {
        SpecVectorMetadata {
            coord_id: self.coord_id@,
            created_at: self.created_at@,
            author: match self.author {
                Some(ref a) => Some(a@),
                None => None,
            },
            tags: view_strings(self.tags@),
            custom: view_entries(self.custom@),
        }
    }
}

impl VectorMetadata {
    /// Fresh metadata for a coordinate, stamped with the given time.
    pub fn new(coord_id: CoordId, created_at: String) -> (r: VectorMetadata)
        ensures
            r@.coord_id == coord_id@,
            r@.created_at == created_at@,
            r@.author is None,
            r@.tags.len() == 0,
            r@.custom.len() == 0,
    {
        let r = VectorMetadata {
            coord_id,
            created_at,
            author: None,
            tags: Vec::new(),
            custom: Vec::new(),
        };
        proof {
            assert(view_strings(r.tags@) =~= Seq::<Seq<char>>::empty());
            assert(view_entries(r.custom@) =~= Seq::<(Seq<char>, SpecValue)>::empty());
        }
        r
    }

    /// The same metadata with an author.
    pub fn with_author(self, author: String) -> (r: VectorMetadata)
        ensures
            r@.author == Some(author@),
            r@.coord_id == self@.coord_id,
            r@.created_at == self@.created_at,
            r@.tags == self@.tags,
            r@.custom == self@.custom,
    {
        VectorMetadata { author: Some(author), ..self }
    }

    /// The same metadata with tags.
    pub fn with_tags(self, tags: Vec<String>) -> (r: VectorMetadata)
        ensures
            r@.tags == view_strings(tags@),
            r@.coord_id == self@.coord_id,
            r@.created_at == self@.created_at,
            r@.author == self@.author,
            r@.custom == self@.custom,
    {
        VectorMetadata { tags, ..self }
    }
}

/// What a filter asks of metadata: the author must match when given,
/// and at least one required tag must be present when tags are given.
pub open spec fn filter_matches(f: SpecSearchFilter, m: SpecVectorMetadata) -> bool {
    &&& match f.author {
        Some(a) => m.author == Some(a),
        None => true,
    }
    &&& match f.tags {
        Some(required) => exists|i: int, j: int|
            0 <= i < required.len() && 0 <= j < m.tags.len() && required[i] == m.tags[j],
        None => true,
    }
}

/// Model of a search filter.
pub struct SpecSearchFilter {
    pub author: Option<Seq<char>>,
    pub tags: Option<Seq<Seq<char>>>,
    pub created_after: Option<Seq<char>>,
    pub created_before: Option<Seq<char>>,
}

/// Criteria a search result must meet. Date bounds are carried but not
/// applied here.
pub struct SearchFilter {
    pub author: Option<String>,
    pub tags: Option<Vec<String>>,
    pub created_after: Option<String>,
    pub created_before: Option<String>,
}

impl View for SearchFilter {
    type V = SpecSearchFilter;

    open spec fn view(&self) -> SpecSearchFilter {
        SpecSearchFilter {
            author: match self.author {
                Some(ref a) => Some(a@),
                None => None,
            },
            tags: match self.tags {
                Some(ref t) => Some(view_strings(t@)),
                None => None,
            },
            created_after: match self.created_after {
                Some(ref s) => Some(s@),
                None => None,
            },
            created_before: match self.created_before {
                Some(ref s) => Some(s@),
                None => None,
            },
        }
    }
}

impl SearchFilter {
    /// Whether metadata meets the filter.
    #[verifier::loop_isolation(false)]
    pub fn matches(&self, metadata: &VectorMetadata) -> (r: bool)
        ensures
            r == filter_matches(self@, metadata@),
    {
        match &self.author {
            Some(a) => {
                match &metadata.author {
                    Some(ma) => {
                        if !a.eq(ma) {
                            return false;
                        }
                    },
                    None => {
                        return false;
                    },
                }
            },
            None => {},
        }
        match &self.tags {
            Some(required) => {
                let mut i: usize = 0;
                while i < required.len()
                    invariant
                        i <= required@.len(),
                        forall|x: int, y: int|
                            0 <= x < i && 0 <= y < metadata.tags@.len()
                                ==> (#[trigger] required@[x])@ != (#[trigger] metadata.tags@[y])@,
                    decreases required@.len() - i,
                {
                    let mut j: usize = 0;
                    while j < metadata.tags.len()
                        invariant
                            j <= metadata.tags@.len(),
                            forall|y: int|
                                0 <= y < j ==> required@[i as int]@ != (
                                #[trigger] metadata.tags@[y])@,
                        decreases metadata.tags@.len() - j,
                    {
                        if required[i].eq(&metadata.tags[j]) {
                            proof {
                                let ghost req = view_strings(required@);
                                let ghost mtags = view_strings(metadata.tags@);
                                assert((i as int) < req.len());
                                assert((j as int) < mtags.len());
                                assert(req[i as int] == mtags[j as int]);
                                assert(exists|x: int, y: int|
                                    0 <= x < req.len() && 0 <= y < mtags.len() && req[x]
                                        == mtags[y]) by {
                                    assert(0 <= i as int && 0 <= j as int);
                                }
                                assert(match self@.author {
                                    Some(a2) => metadata@.author == Some(a2),
                                    None => true,
                                });
                                assert(self@.tags == Some(req));
                                assert(metadata@.tags == mtags);
                                assert(filter_matches(self@, metadata@));
                            }
                            return true;
                        }
                        j = j + 1;
                    }
                    i = i + 1;
                }
                proof {
                    assert(!filter_matches(self@, metadata@)) by {
                        if exists|x: int, y: int|
                            0 <= x < view_strings(required@).len() && 0 <= y < view_strings(
                                metadata.tags@,
                            ).len() && view_strings(required@)[x] == view_strings(
                                metadata.tags@,
                            )[y] {
                            let (x, y) = choose|x: int, y: int|
                                0 <= x < view_strings(required@).len() && 0 <= y
                                    < view_strings(metadata.tags@).len() && view_strings(
                                    required@,
                                )[x] == view_strings(metadata.tags@)[y];
                            assert(required@[x]@ == metadata.tags@[y]@);
                        }
                    }
                }
                false
            },
            None => true,
        }
    }
}

} // verus!
