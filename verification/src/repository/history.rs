//! The append-only log of committed manifest digests.

use vstd::prelude::*;
use vstd::string::StringSliceAdditionalSpecFns;

verus! {

broadcast use vstd::string::group_string_axioms;

/// The bytes of an ASCII digest line: the digest's characters, then a
/// newline.
pub open spec fn line_bytes(entry: Seq<char>) -> Seq<u8> {
    Seq::new(entry.len(), |i: int| entry[i] as u8).push(10)
}

/// The history file: one digest per line, in order, never truncated.
pub open spec fn history_enc(entries: Seq<Seq<char>>) -> Seq<u8>
    decreases entries.len(),
{
    if entries.len() == 0 {
        Seq::empty()
    } else {
        history_enc(entries.drop_last()) + line_bytes(entries.last())
    }
}

/// Appending one digest extends the file by exactly one line.
pub proof fn lemma_history_append(entries: Seq<Seq<char>>, digest: Seq<char>)
    ensures
        history_enc(entries.push(digest)) == history_enc(entries) + line_bytes(digest),
{
    assert(entries.push(digest).drop_last() =~= entries);
}

/// An ordered, append-only sequence of manifest digests, one per commit.
/// Once appended, an entry is never removed, reordered, or mutated.
#[derive(Debug, Clone, PartialEq)]
pub struct History {
    commits: Vec<String>,
}

impl View for History {
    type V = Seq<Seq<char>>;

    closed spec fn view(&self) -> Seq<Seq<char>> {
        self.commits@.map_values(|c: String| c@)
    }
}

impl History {
    /// Appends one digest; nothing is ever truncated.
    pub fn append(&mut self, digest: &str)
        ensures
            final(self)@ == old(self)@.push(digest@),
    {
        self.commits.push(digest.to_owned());
        proof {
            assert(self@ =~= old(self)@.push(digest@));
        }
    }

    /// How many commits the log records.
    pub fn len(&self) -> (r: usize)
        ensures
            r == self@.len(),
    {
        self.commits.len()
    }

    /// The digest recorded by one commit.
    pub fn index(&self, i: usize) -> (r: &String)
        requires
            i < self@.len(),
        ensures
            r@ == self@[i as int],
    {
        &self.commits[i]
    }

    /// Renders the log as its persisted file: one digest per line.
    pub fn store(&self) -> (r: Vec<u8>)
        requires
            forall|k: int| 0 <= k < self@.len() ==> is_ascii_line(#[trigger] self@[k]),
        ensures
            r@ == history_enc(self@),
    {
        let mut out: Vec<u8> = Vec::new();
        let n = self.commits.len();
        let mut i: usize = 0;
        proof {
            assert(self@.take(0) =~= Seq::<Seq<char>>::empty());
        }
        while i < n
            invariant
                0 <= i <= n,
                n == self@.len(),
                n == self.commits@.len(),
                forall|k: int| 0 <= k < n ==> is_ascii_line(#[trigger] self@[k]),
                out@ == history_enc(self@.take(i as int)),
            decreases n - i,
        {
            let entry = &self.commits[i];
            proof {
                assert(self@[i as int] == self.commits@[i as int]@);
            }
            append_line(&mut out, entry.as_str());
            proof {
                assert(self@.take(i + 1).drop_last() =~= self@.take(i as int));
            }
            i += 1;
        }
        proof {
            assert(self@.take(n as int) =~= self@);
        }
        out
    }
}

impl Default for History {
    /// The empty history.
    fn default() -> (r: History)
        ensures
            r@ == Seq::<Seq<char>>::empty(),
    {
        let h = History { commits: Vec::new() };
        proof {
            assert(h@ =~= Seq::<Seq<char>>::empty());
        }
        h
    }
}

/// Whether a digest can stand on a history line: ASCII characters only.
pub open spec fn is_ascii_line(entry: Seq<char>) -> bool {
    vstd::utf8::is_ascii_chars(entry)
}

/// Appends one digest line to a byte buffer.
pub fn append_line(out: &mut Vec<u8>, entry: &str)
    requires
        is_ascii_line(entry@),
    ensures
        final(out)@ == old(out)@ + line_bytes(entry@),
{
    proof {
        assert(vstd::string::is_ascii(entry));
        vstd::string::is_ascii_spec_bytes(entry);
    }
    let bytes = entry.as_bytes();
    let m = bytes.len();
    let mut j: usize = 0;
    while j < m
        invariant
            0 <= j <= m,
            m == bytes@.len(),
            bytes@ == entry.spec_bytes(),
            entry.spec_bytes() =~= Seq::new(entry@.len(), |i: int| entry@[i] as u8),
            out@ == old(out)@ + bytes@.take(j as int),
        decreases m - j,
    {
        let b = bytes[j];
        out.push(b);
        proof {
            assert(out@ =~= old(out)@ + bytes@.take(j + 1));
        }
        j += 1;
    }
    out.push(10);
    proof {
        assert(bytes@.take(m as int) =~= bytes@);
        assert(out@ =~= old(out)@ + line_bytes(entry@));
    }
}

} // verus!
