//! Finding the address of an artifact in the page that shows it.

use vstd::prelude::*;
use vstd::string::{StringExecFns, StringSliceAdditionalSpecFns};

verus! {

/// The number of bytes that the address of an artifact takes.
pub const LOCATOR_LEN: usize = 63;

/// Why a page gave no address.
#[derive(Clone, Copy, Debug, PartialEq, Eq, Structural)]
pub enum ScrapeError {
    /// The page does not hold the marker with which an address begins.
    MarkerNotFound,
    /// The page ends before the address does, or the address would end
    /// inside a character.
    BadSlice,
}

impl ScrapeError {
    /// What to tell the user.
    pub open spec fn text(self) -> Seq<char> {
        match self {
            ScrapeError::MarkerNotFound => "Cannot find image url in webpage body"@,
            ScrapeError::BadSlice => "Slicing text of webpage body for image url"@,
        }
    }

    /// What to tell the user.
    pub fn message(&self) -> (r: String)
        ensures
            r@ == self.text(),
    {
        match self {
            ScrapeError::MarkerNotFound => String::from_str("Cannot find image url in webpage body"),
            ScrapeError::BadSlice => String::from_str("Slicing text of webpage body for image url"),
        }
    }
}

/// The bytes with which the address of every artifact begins.
pub open spec fn marker_bytes() -> Seq<u8> {
    "https://assets.amuniversal.com".spec_bytes()
}

/// `needle` stands in `hay` at index `i`.
pub open spec fn occurs_at(hay: Seq<u8>, needle: Seq<u8>, i: int) -> bool {
    0 <= i && i + needle.len() <= hay.len() && hay.subrange(i, i + needle.len()) == needle
}

/// `i` is the first index at which `needle` stands in `hay`.
pub open spec fn first_at(hay: Seq<u8>, needle: Seq<u8>, i: int) -> bool {
    occurs_at(hay, needle, i) && forall|j: int| 0 <= j < i ==> !occurs_at(hay, needle, j)
}

/// `needle` stands nowhere in `hay`.
pub open spec fn absent(hay: Seq<u8>, needle: Seq<u8>) -> bool {
    forall|j: int| !occurs_at(hay, needle, j)
}

/// A character of UTF-8 text can begin at index `i` of `bytes`, or the
/// text ends there.
pub open spec fn char_boundary(bytes: Seq<u8>, i: int) -> bool {
    i == 0 || i == bytes.len() || (0 < i < bytes.len() && !(128 <= bytes[i] < 192))
}

/// The address in `body`: the bytes from the first marker on, as many as
/// an address takes.
pub open spec fn image_url_in(body: Seq<u8>, r: Result<Vec<u8>, ScrapeError>) -> bool {
    match r {
        Ok(url) => exists|i: int|
            first_at(body, marker_bytes(), i) && i + LOCATOR_LEN <= body.len() && char_boundary(
                body,
                i + LOCATOR_LEN,
            ) && url@ == #[trigger] body.subrange(i, i + LOCATOR_LEN),
        Err(ScrapeError::MarkerNotFound) => absent(body, marker_bytes()),
        Err(ScrapeError::BadSlice) => exists|i: int| #[trigger]
            first_at(body, marker_bytes(), i) && !(i + LOCATOR_LEN <= body.len() && char_boundary(
                body,
                i + LOCATOR_LEN,
            )),
    }
}

/// Whether `needle` stands in `hay` at index `i`.
fn matches_at(hay: &[u8], needle: &[u8], i: usize) -> (r: bool)
    requires
        i + needle@.len() <= hay@.len(),
    ensures
        r == occurs_at(hay@, needle@, i as int),
{
    let hay_len: usize = hay.len();
    let mut k: usize = 0;
    while k < needle.len()
        invariant
            k <= needle@.len(),
            hay_len == hay@.len(),
            i + needle@.len() <= hay@.len(),
            forall|j: int| 0 <= j < k ==> hay@[i + j] == needle@[j],
        decreases needle@.len() - k,
    {
        if hay[i + k] != needle[k] {
            assert(hay@.subrange(i as int, i + needle@.len())[k as int] != needle@[k as int]);
            return false;
        }
        k = k + 1;
    }
    assert(hay@.subrange(i as int, i + needle@.len()) =~= needle@);
    true
}

/// The first index at which `needle` stands in `hay`, if it stands there.
pub fn find(hay: &[u8], needle: &[u8]) -> (r: Option<usize>)
    ensures
        match r {
            Some(i) => first_at(hay@, needle@, i as int),
            None => absent(hay@, needle@),
        },
{
    if needle.len() > hay.len() {
        return None;
    }
    let last: usize = hay.len() - needle.len();
    let mut i: usize = 0;
    while i < last
        invariant
            last == hay@.len() - needle@.len(),
            i <= last,
            forall|j: int| 0 <= j < i ==> !occurs_at(hay@, needle@, j),
        decreases last - i,
    {
        if matches_at(hay, needle, i) {
            return Some(i);
        }
        i = i + 1;
    }
    if matches_at(hay, needle, last) {
        Some(last)
    } else {
        None
    }
}

/// The address of the artifact that the page `body` shows: the bytes from
/// the first marker on, as many as an address takes.
pub fn extract_image_url(body: &[u8]) -> (r: Result<Vec<u8>, ScrapeError>)
    ensures
        image_url_in(body@, r),
{
    let start: usize = match find(body, "https://assets.amuniversal.com".as_bytes()) {
        Some(i) => i,
        None => {
            return Err(ScrapeError::MarkerNotFound);
        },
    };
    assert(first_at(body@, marker_bytes(), start as int));
    if body.len() - start < LOCATOR_LEN {
        return Err(ScrapeError::BadSlice);
    }
    let end: usize = start + LOCATOR_LEN;
    if end < body.len() && 128 <= body[end] && body[end] < 192 {
        return Err(ScrapeError::BadSlice);
    }
    let mut url: Vec<u8> = Vec::new();
    let mut k: usize = start;
    while k < end
        invariant
            start <= k <= end <= body@.len(),
            url@ == body@.subrange(start as int, k as int),
        decreases end - k,
    {
        url.push(body[k]);
        assert(body@.subrange(start as int, k as int).push(body@[k as int]) =~= body@.subrange(
            start as int,
            k + 1,
        ));
        k = k + 1;
    }
    Ok(url)
}

} // verus!
