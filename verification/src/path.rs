//! File paths as the bytes that a Unix system has for them.

use vstd::prelude::*;
use vstd::utf8::{decode_utf8, encode_utf8, valid_utf8};

verus! {

/// A path. A path need not be valid UTF-8.
#[derive(Debug)]
pub struct FilePath {
    pub bytes: Vec<u8>,
}

impl View for FilePath {
    type V = Seq<u8>;

    open spec fn view(&self) -> Seq<u8> {
        self.bytes@
    }
}

/// The path of `name` in the directory `base`: an absolute `name` is the path itself, any other
/// follows the directory after exactly one separator.
pub open spec fn joined(base: Seq<u8>, name: Seq<u8>) -> Seq<u8> {
    if name.len() > 0 && name[0] == 47 {
        name
    } else if base.len() == 0 || base.last() == 47 {
        base + name
    } else {
        base.push(47) + name
    }
}

/// The path of a name that is written as text.
pub open spec fn joined_text(base: Seq<u8>, name: Seq<char>) -> Seq<u8> {
    joined(base, encode_utf8(name))
}

/// The text that shows a path.
pub uninterp spec fn lossy_text(bytes: Seq<u8>) -> Seq<char>;

/// Shows bytes with `String::from_utf8_lossy`: the text itself where the bytes are UTF-8. What
/// stands for bytes that are not is not stated.
#[verifier::external_body]
fn from_utf8_lossy(bytes: &Vec<u8>) -> (r: String)
    ensures
        r@ == lossy_text(bytes@),
        valid_utf8(bytes@) ==> r@ == decode_utf8(bytes@),
{
    String::from_utf8_lossy(bytes).into_owned()
}

fn append_bytes(v: &mut Vec<u8>, more: &[u8])
    ensures
        final(v)@ == old(v)@ + more@,
{
    let n: usize = more.len();
    let mut i: usize = 0;
    while i < n
        invariant
            i <= n,
            n == more@.len(),
            v@ == old(v)@ + more@.take(i as int),
        decreases n - i,
    {
        v.push(more[i]);
        assert(more@.take(i + 1) =~= more@.take(i as int).push(more@[i as int]));
        i += 1;
    }
    assert(more@.take(n as int) =~= more@);
}

impl FilePath {
    /// The path that a text writes.
    pub fn from_text(text: &str) -> (r: FilePath)
        ensures
            r@ == encode_utf8(text@),
    {
        let mut bytes: Vec<u8> = Vec::new();
        append_bytes(&mut bytes, text.as_bytes());
        assert(bytes@ =~= encode_utf8(text@));
        FilePath { bytes }
    }

    /// The path of `name` in this directory.
    pub fn join(&self, name: &str) -> (r: FilePath)
        ensures
            r@ == joined_text(self@, name@),
    {
        let tail = name.as_bytes();
        let mut bytes: Vec<u8> = Vec::new();
        if tail.len() > 0 && tail[0] == 47 {
            append_bytes(&mut bytes, tail);
            assert(bytes@ =~= tail@);
        } else {
            append_bytes(&mut bytes, self.bytes.as_slice());
            assert(bytes@ =~= self@);
            let n: usize = bytes.len();
            if n > 0 && bytes[n - 1] != 47 {
                bytes.push(47);
            }
            append_bytes(&mut bytes, tail);
        }
        FilePath { bytes }
    }

    /// The path as text, for people to read.
    pub fn display(&self) -> (r: String)
        ensures
            r@ == lossy_text(self@),
            valid_utf8(self@) ==> r@ == decode_utf8(self@),
    {
        from_utf8_lossy(&self.bytes)
    }

    /// Bytes as text, for people to read.
    pub fn lossy(bytes: &Vec<u8>) -> (r: String)
        ensures
            r@ == lossy_text(bytes@),
            valid_utf8(bytes@) ==> r@ == decode_utf8(bytes@),
    {
        from_utf8_lossy(bytes)
    }

    /// The same path again.
    pub fn copy(&self) -> (r: FilePath)
        ensures
            r@ == self@,
    {
        let mut bytes: Vec<u8> = Vec::new();
        append_bytes(&mut bytes, self.bytes.as_slice());
        assert(bytes@ =~= self@);
        FilePath { bytes }
    }
}

/// Names that are joined one after the other make one relative path.
pub proof fn law_join_is_stepwise(base: Seq<u8>, first: Seq<u8>, second: Seq<u8>)
    requires
        first.len() > 0,
        first[0] != 47,
        first.last() != 47,
        second.len() > 0,
        second[0] != 47,
    ensures
        joined(joined(base, first), second) == joined(base, first.push(47) + second),
{
    let whole = first.push(47) + second;
    assert(whole[0] == first[0]);
    let dir = joined(base, first);
    assert(dir.last() == first.last());
    assert(joined(dir, second) =~= joined(base, whole));
}

/// A relative name follows its directory after exactly one separator, whether the directory is
/// written with one at its end or not; an absolute name is the path itself.
pub proof fn law_join_places(base: Seq<u8>, name: Seq<u8>)
    requires
        base.len() > 0,
        base.last() != 47,
        name.len() > 0,
        name[0] != 47,
    ensures
        joined(base, name) == base + seq![47u8] + name,
        joined(base + seq![47u8], name) == base + seq![47u8] + name,
        joined(Seq::<u8>::empty(), name) == name,
        joined(base, seq![47u8] + name) == seq![47u8] + name,
{
    assert(base.push(47) =~= base + seq![47u8]);
    assert((base + seq![47u8]).last() == 47);
    assert(Seq::<u8>::empty() + name =~= name);
}

/// A name in ASCII that neither begins nor ends with a separator.
pub open spec fn plain_name(name: Seq<char>) -> bool {
    &&& vstd::utf8::is_ascii_chars(name)
    &&& name.len() > 0
    &&& name[0] != '/'
    &&& name.last() != '/'
}

/// The path of a plain name.
pub proof fn lemma_plain_name(base: Seq<u8>, name: Seq<char>)
    requires
        base.len() > 0,
        base.last() != 47,
        plain_name(name),
    ensures
        joined_text(base, name) == base + seq![47u8] + encode_utf8(name),
        joined_text(base, name).len() > 0,
        joined_text(base, name).last() != 47,
{
    vstd::utf8::is_ascii_chars_encode_utf8(name);
    let b = encode_utf8(name);
    assert(b.len() == name.len());
    assert(b[0] == name[0] as u8);
    assert(b[b.len() - 1] == name[name.len() - 1] as u8);
    assert(vstd::utf8::is_ascii_chars(name));
    law_join_places(base, b);
    let whole = base + seq![47u8] + b;
    assert(whole[whole.len() - 1] == b[b.len() - 1]);
}

} // verus!
