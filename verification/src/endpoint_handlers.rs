//! What the requests that read the catalog say, and what is taken where they say
//! nothing.

use vstd::prelude::*;

verus! {

/// How many albums of which kind a client asks for, and from where on.
#[derive(Debug, PartialEq, Eq)]
pub struct GetAlbumsQuery {
    pub kind: String,
    pub size: Option<i32>,
    pub offset: Option<i32>,
}

/// A number of rows, as the catalog counts them.
#[derive(Clone, Copy, Debug, PartialEq, Eq)]
pub struct CountQuery {
    pub count: Option<i64>,
}

/// What a client searches for, and how many artists, albums and songs it wants, each
/// from where on.
#[derive(Debug, PartialEq, Eq)]
pub struct SearchQuery {
    pub query: String,
    pub artist_count: Option<i32>,
    pub artist_offset: Option<i32>,
    pub album_count: Option<i32>,
    pub album_offset: Option<i32>,
    pub song_count: Option<i32>,
    pub song_offset: Option<i32>,
}

/// The number given, or `fallback` where none is given.
pub open spec fn given_or(n: Option<i32>, fallback: i64) -> i64 {
    match n {
        Some(v) => v as i64,
        None => fallback,
    }
}

fn or_default(n: Option<i32>, fallback: i64) -> (r: i64)
    ensures
        r == given_or(n, fallback),
{
    match n {
        Some(v) => v as i64,
        None => fallback,
    }
}

/// Whether a list of albums of this kind can be asked for.
pub open spec fn supported_kind(kind: Seq<char>) -> bool {
    kind == "frequent"@ || kind == "newest"@ || kind == "recent"@ || kind == "random"@ || kind
        == "alphabeticalByName"@
}

impl GetAlbumsQuery {
    /// Whether the kind of list asked for is one that the catalog knows.
    pub fn is_supported(&self) -> (r: bool)
        ensures
            r == supported_kind(self.kind@),
    {
        self.kind == "frequent".to_string() || self.kind == "newest".to_string() || self.kind
            == "recent".to_string() || self.kind == "random".to_string() || self.kind
            == "alphabeticalByName".to_string()
    }

    /// How many albums are asked for: 10 where the request does not say.
    pub fn limit(&self) -> (r: i64)
        ensures
            r == given_or(self.size, 10),
    {
        or_default(self.size, 10)
    }

    /// From which album on: from the first where the request does not say.
    pub fn start(&self) -> (r: i64)
        ensures
            r == given_or(self.offset, 0),
    {
        or_default(self.offset, 0)
    }
}

impl SearchQuery {
    /// How many artists are asked for: 10 where the request does not say.
    pub fn artist_limit(&self) -> (r: i64)
        ensures
            r == given_or(self.artist_count, 10),
    {
        or_default(self.artist_count, 10)
    }

    /// From which artist on: from the first where the request does not say.
    pub fn artist_start(&self) -> (r: i64)
        ensures
            r == given_or(self.artist_offset, 0),
    {
        or_default(self.artist_offset, 0)
    }

    /// How many albums are asked for: 10 where the request does not say.
    pub fn album_limit(&self) -> (r: i64)
        ensures
            r == given_or(self.album_count, 10),
    {
        or_default(self.album_count, 10)
    }

    /// From which album on: from the first where the request does not say.
    pub fn album_start(&self) -> (r: i64)
        ensures
            r == given_or(self.album_offset, 0),
    {
        or_default(self.album_offset, 0)
    }

    /// How many songs are asked for: 10 where the request does not say.
    pub fn song_limit(&self) -> (r: i64)
        ensures
            r == given_or(self.song_count, 10),
    {
        or_default(self.song_count, 10)
    }

    /// From which song on: from the first where the request does not say.
    pub fn song_start(&self) -> (r: i64)
        ensures
            r == given_or(self.song_offset, 0),
    {
        or_default(self.song_offset, 0)
    }
}

impl CountQuery {
    /// Whether the catalog counted exactly as many rows as were asked about.
    pub fn covers(&self, asked: usize) -> (r: bool)
        ensures
            r == (self.count is Some && self.count->0 == asked),
    {
        match self.count {
            Some(n) => n >= 0 && n as u64 == asked as u64,
            None => false,
        }
    }
}

} // verus!
