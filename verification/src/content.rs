//! Loading text into the content store.
//!
//! Raw file bytes are decoded to text with a detected character encoding,
//! then optionally stripped of whitespace, and the results are kept in the
//! content store: an append-only list of file names and their texts,
//! written once before any comparison starts and only read afterwards.

use vstd::prelude::*;

verus! {

/// The text the detected-encoding pipeline decodes the given bytes to.
/// Detection and decoding are deterministic in the bytes alone; the value
/// is taken on trust from the chardet and encoding_rs crates and pinned
/// down only by the clauses of `decode_bytes`.
pub uninterp spec fn decoded_text(bytes: Seq<u8>) -> Seq<char>;

/// Relies on chardet::detect and encoding_rs::Encoding::decode: the bytes
/// are decoded to text with the detected character encoding, falling back
/// to UTF-8 when the detected label names no known encoding. Both steps
/// are pure functions of the bytes.
#[verifier::external_body]
fn decode_bytes(bytes: &Vec<u8>) -> (r: String)
    ensures
        r@ == decoded_text(bytes@),
{
    let label = chardet::detect(bytes).0;
    let encoding = encoding_rs::Encoding::for_label(label.as_bytes()).unwrap_or(
        encoding_rs::UTF_8,
    );
    encoding.decode(bytes).0.to_string()
}

/// Whether `char::is_whitespace` holds of the character; a function of the
/// character alone.
pub uninterp spec fn is_space_char(c: char) -> bool;

/// Relies on char::is_whitespace: whether the character has the Unicode
/// White_Space property.
#[verifier::external_body]
fn is_space_exec(c: char) -> (r: bool)
    ensures
        r == is_space_char(c),
{
    c.is_whitespace()
}

/// Relies on str::chars: the string's characters, in order.
#[verifier::external_body]
pub(crate) fn string_chars(s: &str) -> (r: Vec<char>)
    ensures
        r@ == s@,
{
    s.chars().collect()
}

/// Relies on String::from_iter: the string of exactly these characters.
#[verifier::external_body]
fn chars_string(v: &Vec<char>) -> (r: String)
    ensures
        r@ == v@,
{
    v.iter().collect()
}

/// Keeps exactly the non-whitespace characters.
pub open spec fn not_space() -> spec_fn(char) -> bool {
    |c: char| !is_space_char(c)
}

/// What loading makes of a file's bytes: the decoded text, with every
/// whitespace character dropped when `trim` is set.
pub open spec fn normalized(bytes: Seq<u8>, trim: bool) -> Seq<char> {
    if trim {
        decoded_text(bytes).filter(not_space())
    } else {
        decoded_text(bytes)
    }
}

/// Decodes a file's bytes and applies the configured normalization.
pub fn load_text(bytes: &Vec<u8>, trim: bool) -> (r: String)
    ensures
        r@ == normalized(bytes@, trim),
{
    let decoded = decode_bytes(bytes);
    if !trim {
        return decoded;
    }
    let chars = string_chars(decoded.as_str());
    let mut kept: Vec<char> = Vec::new();
    let mut i: usize = 0;
    proof {
        assert(chars@.take(0) =~= Seq::<char>::empty());
        assert(kept@ =~= chars@.take(0).filter(not_space()));
    }
    while i < chars.len()
        invariant
            i <= chars@.len(),
            kept@ == chars@.take(i as int).filter(not_space()),
        decreases chars@.len() - i,
    {
        let c = chars[i];
        proof {
            assert(chars@.take(i + 1) =~= chars@.take(i as int).push(c));
            chars@.take(i as int).lemma_filter_push(c, not_space());
            assert(not_space()(c) == !is_space_char(c));
        }
        if !is_space_exec(c) {
            kept.push(c);
        }
        i = i + 1;
    }
    proof {
        assert(chars@.take(chars@.len() as int) =~= chars@);
    }
    chars_string(&kept)
}

/// The content store: an immutable mapping from file name to loaded text,
/// populated once before comparison begins. File `i`'s name is `names[i]`
/// and its text is `texts[i]`; the engine compares the texts and reports
/// pairs by these indices.
pub struct ContentStore {
    pub names: Vec<String>,
    pub texts: Vec<String>,
}

impl ContentStore {
    /// One text per name.
    pub open spec fn wf(self) -> bool {
        self.names@.len() == self.texts@.len()
    }

    /// The number of loaded files.
    pub open spec fn size(self) -> nat {
        self.names@.len()
    }

    pub fn new() -> (s: ContentStore)
        ensures
            s.wf(),
            s.size() == 0,
    {
        ContentStore { names: Vec::new(), texts: Vec::new() }
    }

    pub fn len(&self) -> (r: usize)
        requires
            self.wf(),
        ensures
            r == self.size(),
    {
        self.names.len()
    }

    /// Loads one file: decodes its bytes, normalizes the text, and appends
    /// it under the given name.
    pub fn add_file(&mut self, name: String, bytes: &Vec<u8>, trim: bool)
        requires
            old(self).wf(),
        ensures
            final(self).wf(),
            final(self).names@ == old(self).names@.push(name),
            final(self).texts@.len() == old(self).texts@.len() + 1,
            final(self).texts@.last()@ == normalized(bytes@, trim),
            forall|i: int|
                0 <= i < old(self).texts@.len() ==> final(self).texts@[i] == old(
                    self,
                ).texts@[i],
    {
        let text = load_text(bytes, trim);
        self.names.push(name);
        self.texts.push(text);
    }
}

} // verus!
