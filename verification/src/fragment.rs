//! Fragments: ids, template files, per-fragment scope ids, and where linked
//! content is cached.
//!
//! A fragment's scope id is `{id}-{hash}`, where `hash` is the first four
//! bytes of the SHA-256 of the fragment file's text, in lowercase hex.

use vstd::prelude::*;

use sha2::{Digest, Sha256};
use vstd::string::StringSliceAdditionalSpecFns;

use crate::aliases::{resolve_local_href, resolve_local_href_spec};
use crate::content::{has_glob_meta_spec, is_glob_href, kind_of_extension, DataKind};
use crate::error::{Error, ErrorView};
use crate::loc::{diag_at, diag_at_file, str_views};
use crate::paths::{extension_spec, normalize_path, normalize_spec};
use crate::text::chars_of;

verus! {

#[derive(Debug, Clone, PartialEq, Eq, Hash)]
pub struct FragmentId(String);

impl View for FragmentId {
    type V = Seq<char>;

    closed spec fn view(&self) -> Seq<char> {
        self.0@
    }
}

impl FragmentId {
    pub fn new(id: String) -> (r: Self)
        ensures
            r@ == id@,
    {
        FragmentId(id)
    }
}

/// Source file of a fragment template.
#[derive(Debug, Clone)]
pub struct FragmentFile(String);

impl View for FragmentFile {
    type V = Seq<char>;

    closed spec fn view(&self) -> Seq<char> {
        self.0@
    }
}

impl FragmentFile {
    pub fn new(path: String) -> (r: Self)
        ensures
            r@ == path@,
    {
        FragmentFile(path)
    }

    pub fn as_path(&self) -> (r: &str)
        ensures
            r@ == self@,
    {
        self.0.as_str()
    }
}

/// The SHA-256 digest of `data` (FIPS 180-4).
pub uninterp spec fn sha256(data: Seq<u8>) -> Seq<u8>;

/// `sha2::Sha256::digest`: the 32-byte SHA-256 digest of `data`.
#[verifier::external_body]
fn sha256_digest(data: &[u8]) -> (r: Vec<u8>)
    ensures
        r@ == sha256(data@),
        r@.len() == 32,
{
    Sha256::digest(data).to_vec()
}

/// Lowercase hex digit of a value below 16.
pub open spec fn hex_digit(n: u8) -> char {
    if n < 10 {
        ((n + 48) as u8) as char
    } else {
        ((n + 87) as u8) as char
    }
}

/// Two lowercase hex digits per byte, high nibble first.
pub open spec fn hex_spec(b: Seq<u8>) -> Seq<char>
    decreases b.len(),
{
    if b.len() == 0 {
        Seq::empty()
    } else {
        hex_spec(b.drop_last()) + seq![hex_digit(b.last() / 16), hex_digit(b.last() % 16)]
    }
}

/// `hex::encode`: each byte as two lowercase hex digits, high nibble first.
#[verifier::external_body]
fn hex_encode(data: &[u8]) -> (r: String)
    ensures
        r@ == hex_spec(data@),
{
    hex::encode(data)
}

/// First four digest bytes of a text, in hex.
pub open spec fn short_hash_spec(s: &str) -> Seq<char> {
    hex_spec(sha256(s.spec_bytes()).take(4))
}

/// The first four bytes of a digest, in hex.
pub fn hash_prefix_hex(digest: &[u8]) -> (r: String)
    requires
        digest@.len() >= 4,
    ensures
        r@ == hex_spec(digest@.take(4)),
{
    let head = vstd::slice::slice_subrange(digest, 0, 4);
    proof {
        assert(head@ =~= digest@.take(4));
    }
    hex_encode(head)
}

/// Eight hex digits identifying a fragment's text.
pub fn short_hash(s: &str) -> (r: String)
    ensures
        r@ == short_hash_spec(s),
{
    let d = sha256_digest(s.as_bytes());
    hash_prefix_hex(d.as_slice())
}

/// Scope id of a fragment: `{id}-{short_hash(text)}`.
pub fn scope_id(id: &str, text: &str) -> (r: String)
    ensures
        r@ == id@ + "-"@ + short_hash_spec(text),
{
    let mut s = String::from_str(id);
    s.append("-");
    s.append(short_hash(text).as_str());
    s
}

/// An error located by `needles` in the page source, or at `<unknown>`.
pub open spec fn site_err_spec(site: Option<(Seq<char>, Seq<char>)>, needles: Seq<Seq<char>>, message: Seq<char>) -> ErrorView {
    match site {
        Some((file, source)) => ErrorView::Diag(diag_at(file, source, needles, message)),
        None => ErrorView::Diag(diag_at_file("<unknown>"@, message)),
    }
}

pub fn site_err(site: Option<(&str, &str)>, needles: &[&str], message: &str) -> (r: Error)
    ensures
        r@ == site_err_spec(crate::forms::site_views(site), str_views(needles@), message@),
{
    match site {
        Some((file, source)) => Error::at(file, source, needles, message),
        None => Error::at_file("<unknown>", message),
    }
}

/// The format of linked content without a `type`: a glob, the extension's
/// format, or JSON.
pub open spec fn inferred_kind_spec(href: Seq<char>) -> DataKind {
    if has_glob_meta_spec(href) {
        DataKind::Glob
    } else {
        match extension_spec(href) {
            Some(e) => match kind_of_extension(e) {
                Some(k) => k,
                None => DataKind::Json,
            },
            None => DataKind::Json,
        }
    }
}

pub fn inferred_data_kind(href: &str) -> (r: DataKind)
    ensures
        r == inferred_kind_spec(href@),
{
    if is_glob_href(href) {
        DataKind::Glob
    } else {
        match DataKind::from_path(href) {
            Some(k) => k,
            None => DataKind::Json,
        }
    }
}

/// Cache key of linked content: its resolved path, lexically normalized.
pub open spec fn cache_key_spec(site_root: Seq<char>, page_dir: Seq<char>, src: Seq<char>) -> Seq<char> {
    if src.len() > 0 && src[0] == '/' {
        normalize_spec(src)
    } else {
        normalize_spec(resolve_local_href_spec(site_root, page_dir, src))
    }
}

pub fn content_cache_key(site_root: &str, page_dir: &str, src: &str) -> (r: String)
    ensures
        r@ == cache_key_spec(site_root@, page_dir@, src@),
{
    let v = chars_of(src);
    if v.len() > 0 && v[0] == '/' {
        normalize_path(src)
    } else {
        normalize_path(resolve_local_href(site_root, page_dir, src).as_str())
    }
}


/// Hex text has two digits per byte.
pub proof fn law_hex_doubles_length(b: Seq<u8>)
    ensures
        hex_spec(b).len() == 2 * b.len(),
    decreases b.len(),
{
    if b.len() > 0 {
        law_hex_doubles_length(b.drop_last());
    }
}

/// Hex text uses only `0-9` and `a-f`.
pub proof fn law_hex_digits_are_lowercase_hex(b: Seq<u8>)
    ensures
        forall|i: int| 0 <= i < hex_spec(b).len() ==> ('0' <= #[trigger] hex_spec(b)[i] <= '9') || ('a' <= hex_spec(b)[i] <= 'f'),
    decreases b.len(),
{
    if b.len() > 0 {
        law_hex_digits_are_lowercase_hex(b.drop_last());
        let p = hex_spec(b.drop_last());
        let x = b.last();
        let hi = x / 16;
        let lo = x % 16;
        assert(hi < 16 && lo < 16);
        assert forall|i: int| 0 <= i < hex_spec(b).len() implies ('0' <= #[trigger] hex_spec(b)[i] <= '9') || ('a' <= hex_spec(b)[i] <= 'f') by {
            if i < p.len() {
                assert(hex_spec(b)[i] == p[i]);
            } else if i == p.len() {
                assert(hex_spec(b)[i] == hex_digit(hi));
            } else {
                assert(hex_spec(b)[i] == hex_digit(lo));
            }
        }
    }
}

} // verus!
