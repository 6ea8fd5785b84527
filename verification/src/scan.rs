use vstd::prelude::*;

verus! {

/// What the innermost open container of a bencoded value waits for.
#[derive(Clone, Copy, PartialEq, Eq, Structural)]
enum Slot {
    /// A list: any value, or its end.
    List,
    /// A dictionary between entries: a key, or its end.
    Key,
    /// A dictionary after a key: the value that belongs to it.
    Value,
}

/// An ASCII decimal digit.
pub open spec fn is_digit(c: u8) -> bool {
    48 <= c <= 57
}

/// Reads the decimal length of a byte string from `pos` on, with `acc` read so
/// far: the position after the colon and the length. A length above the
/// input's own is given up at once.
pub open spec fn read_len(b: Seq<u8>, pos: int, acc: int) -> Option<(int, int)>
    decreases b.len() - pos,
{
    if pos < 0 || pos >= b.len() {
        None
    } else if b[pos] == 58 {
        Some((pos + 1, acc))
    } else if is_digit(b[pos]) {
        let next = acc * 10 + (b[pos] - 48);
        if next > b.len() {
            None
        } else {
            read_len(b, pos + 1, next)
        }
    } else {
        None
    }
}

/// The end of the byte string that starts at `pos`: its length in decimal, a
/// colon, and that many bytes, all within the input.
pub open spec fn string_end(b: Seq<u8>, pos: int) -> Option<int> {
    match read_len(b, pos, 0) {
        Some((start, n)) => if start + n <= b.len() {
            Some(start + n)
        } else {
            None
        },
        None => None,
    }
}

/// The first position from `pos` on that holds no digit.
pub open spec fn digits_end(b: Seq<u8>, pos: int) -> int
    decreases b.len() - pos,
{
    if 0 <= pos < b.len() && is_digit(b[pos]) {
        digits_end(b, pos + 1)
    } else {
        pos
    }
}

/// The end of the integer that starts at `pos` with its `i`: an optional
/// minus sign, at least one digit, and `e`.
pub open spec fn int_end(b: Seq<u8>, pos: int) -> Option<int> {
    let first = if pos + 1 < b.len() && b[pos + 1] == 45 {
        pos + 2
    } else {
        pos + 1
    };
    let last = digits_end(b, first);
    if first < last < b.len() && b[last] == 101 {
        Some(last + 1)
    } else {
        None
    }
}

/// The end of the value that starts at `pos`: a byte string, an integer, a
/// list or a dictionary.
pub open spec fn value_end(b: Seq<u8>, pos: int) -> Option<int>
    decreases b.len() - pos, 0int,
{
    if pos < 0 || pos >= b.len() {
        None
    } else if is_digit(b[pos]) {
        string_end(b, pos)
    } else if b[pos] == 105 {
        int_end(b, pos)
    } else if b[pos] == 108 {
        items_end(b, pos + 1)
    } else if b[pos] == 100 {
        entries_end(b, pos + 1)
    } else {
        None
    }
}

/// The end of the list whose next item, or closing `e`, is at `pos`.
pub open spec fn items_end(b: Seq<u8>, pos: int) -> Option<int>
    decreases b.len() - pos, 1int,
{
    if pos < 0 || pos >= b.len() {
        None
    } else if b[pos] == 101 {
        Some(pos + 1)
    } else {
        match value_end(b, pos) {
            Some(next) if pos < next <= b.len() => items_end(b, next),
            _ => None,
        }
    }
}

/// The end of the dictionary whose next key, or closing `e`, is at `pos`: a
/// key is a byte string, and its value follows it.
pub open spec fn entries_end(b: Seq<u8>, pos: int) -> Option<int>
    decreases b.len() - pos, 1int,
{
    if pos < 0 || pos >= b.len() {
        None
    } else if b[pos] == 101 {
        Some(pos + 1)
    } else if is_digit(b[pos]) {
        match string_end(b, pos) {
            Some(key_end) if key_end > pos => match value_end(b, key_end) {
                Some(next) if key_end < next <= b.len() => entries_end(b, next),
                _ => None,
            },
            _ => None,
        }
    } else {
        None
    }
}

/// The length of the bencoded dictionary that `b` starts with, if it starts
/// with one.
pub open spec fn dictionary_end(b: Seq<u8>) -> Option<int> {
    if b.len() > 0 && b[0] == 100 {
        entries_end(b, 1)
    } else {
        None
    }
}

/// `b` is one bencoded dictionary and nothing else.
pub open spec fn is_dictionary(b: Seq<u8>) -> bool {
    dictionary_end(b) == Some(b.len() as int)
}

/// The open containers once the innermost has received a value.
spec fn filled(stack: Seq<Slot>) -> Seq<Slot>
    recommends
        stack.len() > 0,
{
    if stack.last() == Slot::Value {
        stack.drop_last().push(Slot::Key)
    } else {
        stack
    }
}

/// One pass over the bytes from `pos` on, with the containers in `stack` open,
/// outermost first: the position at which the outermost closes, or `None`
/// where the bytes break the syntax or end too early.
spec fn scan_from(b: Seq<u8>, pos: int, stack: Seq<Slot>) -> Option<int>
    decreases b.len() - pos,
{
    if stack.len() == 0 {
        Some(pos)
    } else if pos < 0 || pos >= b.len() {
        None
    } else if b[pos] == 101 {
        if stack.last() == Slot::Value {
            None
        } else {
            scan_from(b, pos + 1, stack.drop_last())
        }
    } else if is_digit(b[pos]) {
        match string_end(b, pos) {
            Some(end) if end > pos => scan_from(
                b,
                end,
                if stack.last() == Slot::Key {
                    stack.drop_last().push(Slot::Value)
                } else {
                    filled(stack)
                },
            ),
            _ => None,
        }
    } else if stack.last() == Slot::Key {
        None
    } else if b[pos] == 105 {
        match int_end(b, pos) {
            Some(end) if end > pos => scan_from(b, end, filled(stack)),
            _ => None,
        }
    } else if b[pos] == 108 {
        scan_from(b, pos + 1, filled(stack).push(Slot::List))
    } else if b[pos] == 100 {
        scan_from(b, pos + 1, filled(stack).push(Slot::Key))
    } else {
        None
    }
}

/// What is left to read with the containers in `stack` open, said with the
/// grammar: the innermost container to its end, then the next one out.
spec fn unwind(b: Seq<u8>, pos: int, stack: Seq<Slot>) -> Option<int>
    decreases stack.len(),
{
    if stack.len() == 0 {
        Some(pos)
    } else {
        let inner = match stack.last() {
            Slot::List => items_end(b, pos),
            Slot::Key => entries_end(b, pos),
            Slot::Value => match value_end(b, pos) {
                Some(next) if pos < next <= b.len() => entries_end(b, next),
                _ => None,
            },
        };
        match inner {
            Some(end) => unwind(b, end, stack.drop_last()),
            None => None,
        }
    }
}

/// Whatever the grammar finds ends after the place it starts at, and within
/// the input.
pub proof fn lemma_ends_after(b: Seq<u8>, pos: int)
    requires
        0 <= pos,
    ensures
        value_end(b, pos) matches Some(end) ==> pos < end <= b.len(),
        items_end(b, pos) matches Some(end) ==> pos < end <= b.len(),
        entries_end(b, pos) matches Some(end) ==> pos < end <= b.len(),
    decreases b.len() - pos,
{
    if pos < b.len() {
        lemma_ends_after(b, pos + 1);
        if is_digit(b[pos]) {
            lemma_read_len_grows(b, pos, 0);
        }
        match value_end(b, pos) {
            Some(next) if pos < next <= b.len() => {
                lemma_ends_after(b, next);
            },
            _ => {},
        }
        if is_digit(b[pos]) {
            match string_end(b, pos) {
                Some(key_end) if key_end > pos => {
                    lemma_ends_after(b, key_end);
                    match value_end(b, key_end) {
                        Some(next) if key_end < next <= b.len() => {
                            lemma_ends_after(b, next);
                        },
                        _ => {},
                    }
                },
                _ => {},
            }
        }
    }
}

proof fn lemma_read_len_grows(b: Seq<u8>, pos: int, acc: int)
    requires
        0 <= acc,
    ensures
        read_len(b, pos, acc) matches Some(found) ==> found.0 > pos && found.1 >= 0,
    decreases b.len() - pos,
{
    if 0 <= pos < b.len() && b[pos] != 58 && is_digit(b[pos]) {
        lemma_read_len_grows(b, pos + 1, acc * 10 + (b[pos] - 48));
    }
}

/// The one-pass scan finds what the grammar says.
proof fn lemma_scan_is_unwind(b: Seq<u8>, pos: int, stack: Seq<Slot>)
    requires
        0 <= pos,
    ensures
        scan_from(b, pos, stack) == unwind(b, pos, stack),
    decreases b.len() - pos,
{
    if stack.len() > 0 && pos < b.len() {
        let top = stack.last();
        let rest = stack.drop_last();
        let c = b[pos];
        lemma_ends_after(b, pos);
        lemma_ends_after(b, pos + 1);
        if c == 101 {
            if top != Slot::Value {
                lemma_scan_is_unwind(b, pos + 1, rest);
            }
        } else if is_digit(c) || (top != Slot::Key && c == 105) {
            match value_end(b, pos) {
                Some(end) if end > pos => {
                    let next = if top == Slot::Key {
                        rest.push(Slot::Value)
                    } else {
                        filled(stack)
                    };
                    assert(next.drop_last() =~= rest);
                    lemma_scan_is_unwind(b, end, next);
                    lemma_ends_after(b, end);
                },
                _ => {},
            }
        } else if top != Slot::Key && (c == 108 || c == 100) {
            let opened = if c == 108 {
                Slot::List
            } else {
                Slot::Key
            };
            let outer = filled(stack);
            let next = outer.push(opened);
            assert(next.drop_last() =~= outer);
            assert(outer.drop_last() =~= rest);
            lemma_scan_is_unwind(b, pos + 1, next);
            match value_end(b, pos) {
                Some(end) => {
                    lemma_ends_after(b, end);
                },
                None => {},
            }
        }
    }
}

/// A dictionary at the front of an input has at least its two brackets and
/// ends within the input.
pub proof fn lemma_dictionary_end_bounds(b: Seq<u8>)
    ensures
        dictionary_end(b) matches Some(end) ==> 2 <= end <= b.len(),
{
    lemma_ends_after(b, 1);
}

/// The scan that starts inside the outermost dictionary finds its end.
proof fn lemma_dictionary_scan(b: Seq<u8>)
    requires
        b.len() > 0,
        b[0] == 100,
    ensures
        dictionary_end(b) == scan_from(b, 1, seq![Slot::Key]),
{
    let stack = seq![Slot::Key];
    lemma_scan_is_unwind(b, 1, stack);
    assert(stack.drop_last() =~= Seq::<Slot>::empty());
    assert(stack.last() == Slot::Key);
    match entries_end(b, 1) {
        Some(end) => {
            assert(unwind(b, end, stack.drop_last()) == Some(end));
        },
        None => {},
    }
}

/// `p` is how `b` begins.
spec fn is_prefix(p: Seq<u8>, b: Seq<u8>) -> bool {
    p.len() <= b.len() && forall|i: int| 0 <= i < p.len() ==> p[i] == b[i]
}

proof fn lemma_read_len_extends(p: Seq<u8>, b: Seq<u8>, pos: int, acc: int)
    requires
        is_prefix(p, b),
        read_len(p, pos, acc) is Some,
    ensures
        read_len(b, pos, acc) == read_len(p, pos, acc),
        read_len(p, pos, acc) matches Some(found) && found.0 > pos,
    decreases p.len() - pos,
{
    if 0 <= pos < p.len() && p[pos] != 58 {
        lemma_read_len_extends(p, b, pos + 1, acc * 10 + (p[pos] - 48));
    }
}

proof fn lemma_digits_end_extends(p: Seq<u8>, b: Seq<u8>, pos: int)
    requires
        is_prefix(p, b),
        digits_end(p, pos) < p.len(),
    ensures
        digits_end(b, pos) == digits_end(p, pos),
        digits_end(p, pos) >= pos,
    decreases p.len() - pos,
{
    if 0 <= pos < p.len() && is_digit(p[pos]) {
        lemma_digits_end_extends(p, b, pos + 1);
    }
}

proof fn lemma_int_end_extends(p: Seq<u8>, b: Seq<u8>, pos: int)
    requires
        is_prefix(p, b),
        0 <= pos,
        int_end(p, pos) is Some,
    ensures
        int_end(b, pos) == int_end(p, pos),
{
    lemma_digits_end_extends(p, b, pos + 1);
    lemma_digits_end_extends(p, b, pos + 2);
    if !(pos + 1 < p.len()) {
        assert(digits_end(p, pos + 1) == pos + 1);
    }
}

/// A scan that succeeds on the beginning of an input succeeds on the whole
/// input and ends at the same place.
proof fn lemma_scan_extends(p: Seq<u8>, b: Seq<u8>, pos: int, stack: Seq<Slot>)
    requires
        is_prefix(p, b),
        0 <= pos,
        scan_from(p, pos, stack) is Some,
    ensures
        scan_from(b, pos, stack) == scan_from(p, pos, stack),
    decreases p.len() - pos,
{
    if stack.len() > 0 {
        assert(pos < p.len());
        assert(b[pos] == p[pos]);
        if p[pos] == 101 {
            lemma_scan_extends(p, b, pos + 1, stack.drop_last());
        } else if is_digit(p[pos]) {
            lemma_read_len_extends(p, b, pos, 0);
            let end = string_end(p, pos)->0;
            lemma_scan_extends(
                p,
                b,
                end,
                if stack.last() == Slot::Key {
                    stack.drop_last().push(Slot::Value)
                } else {
                    filled(stack)
                },
            );
        } else if p[pos] == 105 {
            lemma_int_end_extends(p, b, pos);
            lemma_scan_extends(p, b, int_end(p, pos)->0, filled(stack));
        } else if p[pos] == 108 {
            lemma_scan_extends(p, b, pos + 1, filled(stack).push(Slot::List));
        } else if p[pos] == 100 {
            lemma_scan_extends(p, b, pos + 1, filled(stack).push(Slot::Key));
        }
    }
}

/// Self-delimiting: an input whose first `n` bytes are one whole dictionary
/// starts with a dictionary of exactly that length, whatever follows.
pub proof fn lemma_dictionary_end_of_prefix(b: Seq<u8>, n: int)
    requires
        0 <= n <= b.len(),
        is_dictionary(b.take(n)),
    ensures
        dictionary_end(b) == Some(n),
{
    let p = b.take(n);
    lemma_dictionary_scan(p);
    lemma_dictionary_scan(b);
    lemma_scan_extends(p, b, 1, seq![Slot::Key]);
}

/// The end of the byte string at `pos`, or `None` where there is none.
fn find_string_end(b: &[u8], pos: usize) -> (r: Option<usize>)
    requires
        pos < b@.len(),
    ensures
        match r {
            Some(end) => string_end(b@, pos as int) == Some(end as int) && pos < end <= b@.len(),
            None => !(string_end(b@, pos as int) matches Some(end) && end > pos),
        },
{
    let mut at: usize = pos;
    let mut acc: usize = 0;
    while at < b.len()
        invariant
            pos <= at <= b@.len(),
            acc <= b@.len(),
            read_len(b@, pos as int, 0) == read_len(b@, at as int, acc as int),
        decreases b@.len() - at,
    {
        let c: u8 = b[at];
        if c == 58 {
            if acc <= b.len() - (at + 1) {
                return Some(at + 1 + acc);
            }
            return None;
        }
        if !(48 <= c && c <= 57) {
            return None;
        }
        let next: u128 = (acc as u128) * 10 + ((c - 48) as u128);
        if next > b.len() as u128 {
            return None;
        }
        acc = next as usize;
        at += 1;
    }
    None
}

/// The end of the integer at `pos`, or `None` where there is none.
fn find_int_end(b: &[u8], pos: usize) -> (r: Option<usize>)
    requires
        pos < b@.len(),
    ensures
        match r {
            Some(end) => int_end(b@, pos as int) == Some(end as int) && pos < end <= b@.len(),
            None => int_end(b@, pos as int) is None,
        },
{
    let len: usize = b.len();
    let first: usize = if pos + 1 < len && b[pos + 1] == 45 {
        pos + 2
    } else {
        pos + 1
    };
    let mut at: usize = first;
    while at < b.len() && 48 <= b[at] && b[at] <= 57
        invariant
            first <= at <= b@.len(),
            digits_end(b@, first as int) == digits_end(b@, at as int),
        decreases b@.len() - at,
    {
        at += 1;
    }
    if first < at && at < b.len() && b[at] == 101 {
        Some(at + 1)
    } else {
        None
    }
}

/// The innermost container takes a value.
fn fill(stack: &mut Vec<Slot>)
    requires
        old(stack)@.len() > 0,
    ensures
        final(stack)@ == filled(old(stack)@),
{
    let last: usize = stack.len() - 1;
    match stack[last] {
        Slot::Value => {
            stack.pop();
            stack.push(Slot::Key);
        },
        _ => {},
    }
}

/// Where the dictionary at the front of `b` ends, found in one pass with the
/// open containers kept on a heap-allocated stack, so that nesting costs
/// memory in proportion to the input and nothing else.
pub fn find_dictionary_end(b: &[u8]) -> (r: Option<usize>)
    ensures
        match r {
            Some(end) => dictionary_end(b@) == Some(end as int) && 0 < end <= b@.len(),
            None => dictionary_end(b@) is None,
        },
{
    if b.len() == 0 || b[0] != 100 {
        return None;
    }
    let mut stack: Vec<Slot> = Vec::new();
    stack.push(Slot::Key);
    let mut pos: usize = 1;
    proof {
        lemma_dictionary_scan(b@);
        assert(stack@ =~= seq![Slot::Key]);
    }
    while stack.len() > 0
        invariant
            1 <= pos <= b@.len(),
            dictionary_end(b@) == scan_from(b@, pos as int, stack@),
        decreases b@.len() - pos,
    {
        if pos >= b.len() {
            return None;
        }
        let c: u8 = b[pos];
        let top: Slot = stack[stack.len() - 1];
        if c == 101 {
            if top == Slot::Value {
                return None;
            }
            stack.pop();
            pos += 1;
        } else if 48 <= c && c <= 57 {
            match find_string_end(b, pos) {
                None => {
                    return None;
                },
                Some(end) => {
                    if top == Slot::Key {
                        stack.pop();
                        stack.push(Slot::Value);
                    } else {
                        fill(&mut stack);
                    }
                    pos = end;
                },
            }
        } else if top == Slot::Key {
            return None;
        } else if c == 105 {
            match find_int_end(b, pos) {
                None => {
                    return None;
                },
                Some(end) => {
                    fill(&mut stack);
                    pos = end;
                },
            }
        } else if c == 108 {
            fill(&mut stack);
            stack.push(Slot::List);
            pos += 1;
        } else if c == 100 {
            fill(&mut stack);
            stack.push(Slot::Key);
            pos += 1;
        } else {
            return None;
        }
    }
    Some(pos)
}

} // verus!
