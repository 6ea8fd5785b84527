use crate::bencode::{ascii, decimal, entries_encoding, entry_encoding, int_dict_encoding};
use crate::scan::{
    digits_end, entries_end, int_end, is_dictionary, is_digit, read_len, string_end, value_end,
};
use vstd::prelude::*;

verus! {

/// A number in decimal is at least one byte, and every byte is a digit.
pub proof fn lemma_decimal_digits(n: nat)
    ensures
        decimal(n).len() >= 1,
        forall|i: int| 0 <= i < decimal(n).len() ==> is_digit(#[trigger] decimal(n)[i]),
    decreases n,
{
    if n >= 10 {
        lemma_decimal_digits(n / 10);
    }
}

/// Reading a length that stands in decimal at `pos` arrives behind its digits
/// with that length in hand.
proof fn lemma_read_len_decimal(b: Seq<u8>, pos: int, n: nat)
    requires
        0 <= pos,
        pos + decimal(n).len() <= b.len(),
        b.subrange(pos, pos + decimal(n).len()) == decimal(n),
        n <= b.len(),
    ensures
        read_len(b, pos, 0) == read_len(b, pos + decimal(n).len(), n as int),
    decreases n,
{
    let d = decimal(n);
    lemma_decimal_digits(n);
    if n < 10 {
        assert(b[pos] == d[0]);
    } else {
        let head = decimal(n / 10);
        lemma_decimal_digits(n / 10);
        assert(b.subrange(pos, pos + head.len()) =~= head) by {
            assert forall|i: int| 0 <= i < head.len() implies b[pos + i] == head[i] by {
                assert(d[i] == head[i]);
                assert(b.subrange(pos, pos + d.len())[i] == d[i]);
            }
        }
        lemma_read_len_decimal(b, pos, n / 10);
        let last = pos + head.len();
        assert(b[last] == d[head.len() as int]) by {
            assert(b.subrange(pos, pos + d.len())[head.len() as int] == d[head.len() as int]);
        }
        assert(b[last] == (48 + n % 10) as u8);
        assert((n / 10) * 10 + (b[last] - 48) == n);
    }
}

/// A run of digits that stands at `pos` and is followed by something else ends
/// where it ends.
proof fn lemma_digits_run(b: Seq<u8>, pos: int, end: int)
    requires
        0 <= pos <= end < b.len(),
        forall|i: int| pos <= i < end ==> is_digit(#[trigger] b[i]),
        !is_digit(b[end]),
    ensures
        digits_end(b, pos) == end,
    decreases end - pos,
{
    if pos < end {
        lemma_digits_run(b, pos + 1, end);
    }
}

/// An entry that stands at `pos` is a key and a value by the grammar.
proof fn lemma_entry_scans(b: Seq<u8>, pos: int, name: Seq<char>, value: u64)
    requires
        0 <= pos,
        pos + entry_encoding(name, value).len() <= b.len(),
        b.subrange(pos, pos + entry_encoding(name, value).len()) == entry_encoding(name, value),
    ensures
        is_digit(b[pos]),
        string_end(b, pos) matches Some(key_end) && pos < key_end < pos + entry_encoding(
            name,
            value,
        ).len() && value_end(b, key_end) == Some(pos + entry_encoding(name, value).len()),
{
    let e = entry_encoding(name, value);
    let k = decimal(name.len());
    let v = decimal(value as nat);
    lemma_decimal_digits(name.len());
    lemma_decimal_digits(value as nat);
    assert(ascii(name).len() == name.len());
    assert(e.len() == k.len() + 1 + name.len() + 1 + v.len() + 1);
    assert forall|i: int| 0 <= i < e.len() implies b[pos + i] == e[i] by {
        assert(b.subrange(pos, pos + e.len())[i] == e[i]);
    }
    assert(b.subrange(pos, pos + k.len()) =~= k) by {
        assert forall|i: int| 0 <= i < k.len() implies b[pos + i] == k[i] by {
            assert(e[i] == k[i]);
        }
    }
    lemma_read_len_decimal(b, pos, name.len());
    assert(b[pos] == k[0]) by {
        assert(e[0] == k[0]);
    }
    assert(b[pos + k.len()] == 58) by {
        assert(e[k.len() as int] == 58);
    }
    let key_end = pos + k.len() + 1 + name.len();
    assert(string_end(b, pos) == Some(key_end));
    assert(b[key_end] == 105) by {
        assert(e[key_end - pos] == 105);
    }
    let first = key_end + 1;
    let last = first + v.len();
    assert forall|i: int| first <= i < last implies is_digit(#[trigger] b[i]) by {
        assert(e[i - pos] == v[i - first]);
    }
    assert(b[last] == 101) by {
        assert(e[last - pos] == 101);
    }
    assert(b[first] != 45);
    lemma_digits_run(b, first, last);
    assert(int_end(b, key_end) == Some(last + 1));
}

/// Entries that stand at `pos` and are closed by `e` at the end of the input
/// are what is left of a dictionary by the grammar.
proof fn lemma_entries_scan(b: Seq<u8>, pos: int, fields: Seq<(Seq<char>, u64)>)
    requires
        0 <= pos <= b.len(),
        b.subrange(pos, b.len() as int) == entries_encoding(fields) + seq![101u8],
    ensures
        entries_end(b, pos) == Some(b.len() as int),
    decreases fields.len(),
{
    let tail = b.subrange(pos, b.len() as int);
    if fields.len() == 0 {
        assert(tail[0] == 101);
        assert(b[pos] == tail[0]);
    } else {
        let e = entry_encoding(fields[0].0, fields[0].1);
        let rest = entries_encoding(fields.drop_first()) + seq![101u8];
        assert(tail =~= e + rest);
        assert(b.subrange(pos, pos + e.len()) =~= e) by {
            assert forall|i: int| 0 <= i < e.len() implies b[pos + i] == e[i] by {
                assert(tail[i] == e[i]);
            }
        }
        lemma_entry_scans(b, pos, fields[0].0, fields[0].1);
        let next = pos + e.len();
        assert(b.subrange(next, b.len() as int) =~= rest) by {
            assert forall|i: int| 0 <= i < rest.len() implies b[next + i] == rest[i] by {
                assert(tail[e.len() + i] == rest[i]);
            }
        }
        lemma_entries_scan(b, next, fields.drop_first());
    }
}

/// What the encoder writes for a dictionary of integers is one whole
/// dictionary by the grammar.
pub proof fn lemma_int_dict_is_dictionary(fields: Seq<(Seq<char>, u64)>)
    ensures
        is_dictionary(int_dict_encoding(fields)),
{
    let b = int_dict_encoding(fields);
    assert(b[0] == 100);
    assert(b.subrange(1, b.len() as int) =~= entries_encoding(fields) + seq![101u8]);
    lemma_entries_scan(b, 1, fields);
}

} // verus!
