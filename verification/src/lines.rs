//! Line accounting for scanned chunks.

use vstd::prelude::*;

verus! {

/// The byte that ends a line.
pub const NEWLINE: u8 = 10;

/// Number of newline bytes in `data`.
pub open spec fn newline_count(data: Seq<u8>) -> nat
    decreases data.len(),
{
    if data.len() == 0 {
        0
    } else {
        newline_count(data.drop_last()) + if data.last() == NEWLINE {
            1nat
        } else {
            0nat
        }
    }
}

/// Number of lines a chunk contributes: one per newline, plus one for a final
/// line that is not terminated.
pub open spec fn line_count(data: Seq<u8>) -> nat {
    newline_count(data) + if data.len() > 0 && data.last() != NEWLINE {
        1nat
    } else {
        0nat
    }
}

/// A chunk never holds more newlines than bytes.
pub proof fn lemma_newline_count_bound(data: Seq<u8>)
    ensures
        newline_count(data) <= data.len(),
    decreases data.len(),
{
    if data.len() > 0 {
        lemma_newline_count_bound(data.drop_last());
    }
}

/// Counts the lines of a chunk.
pub fn count_lines(data: &[u8]) -> (n: usize)
    ensures
        n == line_count(data@),
        n <= data@.len(),
{
    let len = data.len();
    let mut newlines: usize = 0;
    let mut i: usize = 0;
    while i < len
        invariant
            len == data@.len(),
            i <= len,
            newlines == newline_count(data@.take(i as int)),
            newlines <= i,
        decreases len - i,
    {
        proof {
            assert(data@.take(i + 1).drop_last() == data@.take(i as int));
        }
        if data[i] == NEWLINE {
            newlines += 1;
        }
        i += 1;
    }
    proof {
        assert(data@.take(len as int) == data@);
    }
    if len > 0 && data[len - 1] != NEWLINE {
        proof {
            assert(data@.drop_last().len() == len - 1);
            lemma_newline_count_bound(data@.drop_last());
        }
        newlines + 1
    } else {
        newlines
    }
}

/// The bytes of `lines` with one newline between consecutive lines and none
/// after the last.
pub open spec fn joined_lines(lines: Seq<Seq<u8>>) -> Seq<u8>
    decreases lines.len(),
{
    if lines.len() == 0 {
        Seq::empty()
    } else if lines.len() == 1 {
        lines[0]
    } else {
        joined_lines(lines.drop_last()) + seq![NEWLINE] + lines.last()
    }
}

/// The UTF-8 bytes of each line.
pub open spec fn line_bytes(lines: Seq<String>) -> Seq<Seq<u8>> {
    Seq::new(lines.len(), |i: int| vstd::utf8::encode_utf8(lines[i]@))
}

/// Builds one chunk out of text lines: the lines' bytes in order, separated by
/// single newlines, with no newline after the last line.
pub fn create_chunk_from_lines(lines: &[String]) -> (chunk: Vec<u8>)
    ensures
        chunk@ == joined_lines(line_bytes(lines@)),
{
    let mut chunk: Vec<u8> = Vec::new();
    let n = lines.len();
    let mut i: usize = 0;
    while i < n
        invariant
            n == lines@.len(),
            i <= n,
            chunk@ == joined_lines(line_bytes(lines@).take(i as int)),
        decreases n - i,
    {
        let ghost all = line_bytes(lines@);
        proof {
            assert(all.take(i + 1).drop_last() == all.take(i as int));
            assert(all.take(i + 1).last() == all[i as int]);
        }
        if i > 0 {
            chunk.push(NEWLINE);
        }
        let bytes = lines[i].as_str().as_bytes();
        let ghost before = chunk@;
        let m = bytes.len();
        let mut j: usize = 0;
        while j < m
            invariant
                m == bytes@.len(),
                j <= m,
                chunk@ == before + bytes@.take(j as int),
            decreases m - j,
        {
            chunk.push(bytes[j]);
            proof {
                assert(bytes@.take(j + 1) == bytes@.take(j as int).push(bytes@[j as int]));
            }
            j += 1;
        }
        proof {
            assert(bytes@.take(m as int) == bytes@);
            assert(bytes@ == all[i as int]);
            if i == 0 {
                assert(all.take(1).len() == 1);
                assert(before == Seq::<u8>::empty());
                assert(chunk@ == all[0]);
            } else {
                assert(all.take(i + 1).len() > 1);
            }
        }
        i += 1;
    }
    proof {
        assert(line_bytes(lines@).take(n as int) == line_bytes(lines@));
    }
    chunk
}

} // verus!
