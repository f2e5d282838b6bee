//! Elements of BER, as far as they must be known before a parser is handed some bytes.
use vstd::prelude::*;

verus! {

/// How an element lies among other bytes.
pub struct Extent {
    /// Whether it holds elements.
    pub constructed: bool,
    /// Whether it goes on up to an end marker instead of having a length.
    pub open: bool,
    /// Where its content starts.
    pub start: int,
    /// Where its content stops; for an open element, where it starts.
    pub stop: int,
}

/// Where a tag of several bytes ends: behind the first byte without the continuation bit.
pub open spec fn long_tag_end(b: Seq<u8>, at: int, end: int) -> Option<int>
    decreases end - at,
{
    if at >= end {
        None
    } else if b[at] < 0x80 {
        Some(at + 1)
    } else {
        long_tag_end(b, at + 1, end)
    }
}

/// Where the tag at a place ends.
pub open spec fn tag_end(b: Seq<u8>, at: int, end: int) -> Option<int> {
    if at >= end {
        None
    } else if b[at] % 32 == 31 {
        long_tag_end(b, at + 1, end)
    } else {
        Some(at + 1)
    }
}

/// The number that some bytes are, the highest first.
pub open spec fn number(b: Seq<u8>, at: int, n: nat) -> nat
    decreases n,
{
    if n == 0 {
        0
    } else {
        number(b, at, (n - 1) as nat) * 0x100 + b[at + n - 1] as nat
    }
}

/// An element with a length, where it ends in time.
pub open spec fn closed_extent(constructed: bool, start: int, length: nat, end: int) -> Option<
    Extent,
> {
    if start + length <= end {
        Some(Extent { constructed, open: false, start, stop: start + length })
    } else {
        None
    }
}

/// The element at a place, where its header is one and its content ends before `end`.
pub open spec fn element(b: Seq<u8>, at: int, end: int) -> Option<Extent> {
    match tag_end(b, at, end) {
        None => None,
        Some(p) => {
            let constructed = b[at] / 32 % 2 == 1;
            if p >= end || b[p] == 0xff {
                None
            } else if b[p] < 0x80 {
                closed_extent(constructed, p + 1, b[p] as nat, end)
            } else if b[p] == 0x80 {
                if constructed {
                    Some(Extent { constructed, open: true, start: p + 1, stop: p + 1 })
                } else {
                    None
                }
            } else {
                let n = (b[p] - 0x80) as nat;
                if p + 1 + n > end {
                    None
                } else {
                    closed_extent(constructed, p + 1 + n, number(b, p + 1, n), end)
                }
            }
        },
    }
}

proof fn lemma_long_tag(b: Seq<u8>, at: int, end: int)
    ensures
        long_tag_end(b, at, end) matches Some(p) ==> at < p <= end,
    decreases end - at,
{
    if at < end && b[at] >= 0x80 {
        lemma_long_tag(b, at + 1, end);
    }
}

/// The content of an element lies behind its start, and ends in time.
pub proof fn lemma_element(b: Seq<u8>, at: int, end: int)
    ensures
        element(b, at, end) matches Some(x) ==> at + 1 < x.start <= x.stop <= end,
{
    lemma_long_tag(b, at + 1, end);
}

proof fn lemma_number_grows(b: Seq<u8>, at: int, n: nat, m: nat)
    requires
        n <= m,
    ensures
        number(b, at, n) <= number(b, at, m),
    decreases m,
{
    if n < m {
        lemma_number_grows(b, at, n, (m - 1) as nat);
    }
}

/// Where the innermost open elements are closed, `depth` of them.
pub open spec fn closing(b: Seq<u8>, at: int, depth: nat, end: int) -> Option<int>
    decreases end - at,
{
    if depth == 0 {
        Some(at)
    } else if at >= end {
        None
    } else if b[at] == 0 || b[at] == 0x20 {
        if at + 1 < end && b[at + 1] == 0 {
            closing(b, at + 2, (depth - 1) as nat, end)
        } else {
            None
        }
    } else {
        match element(b, at, end) {
            None => None,
            Some(x) => {
                proof {
                    lemma_element(b, at, end);
                }
                closing(
                    b,
                    x.stop,
                    if x.open {
                        depth + 1
                    } else {
                        depth
                    },
                    end,
                )
            },
        }
    }
}

proof fn lemma_closing(b: Seq<u8>, at: int, depth: nat, end: int)
    requires
        at <= end,
    ensures
        closing(b, at, depth, end) matches Some(p) ==> at + 2 * depth <= p <= end,
    decreases end - at,
{
    if depth > 0 && at < end {
        lemma_element(b, at, end);
        if b[at] == 0 || b[at] == 0x20 {
            if at + 1 < end && b[at + 1] == 0 {
                lemma_closing(b, at + 2, (depth - 1) as nat, end);
            }
        } else if let Some(x) = element(b, at, end) {
            lemma_closing(
                b,
                x.stop,
                if x.open {
                    depth + 1
                } else {
                    depth
                },
                end,
            );
        }
    }
}

/// The element at a place: where its content starts and stops, and where what follows starts.
pub open spec fn part(b: Seq<u8>, at: int, end: int) -> Option<(int, int, int)> {
    match element(b, at, end) {
        None => None,
        Some(x) => if x.open {
            match closing(b, x.start, 1, end) {
                None => None,
                Some(next) => Some((x.start, next - 2, next)),
            }
        } else {
            Some((x.start, x.stop, x.stop))
        },
    }
}

/// Content and follower of an element are behind its start, in this order.
pub proof fn lemma_part(b: Seq<u8>, at: int, end: int)
    ensures
        part(b, at, end) matches Some((start, stop, next)) ==> at + 1 < start <= stop <= next
            <= end,
{
    lemma_element(b, at, end);
    if let Some(x) = element(b, at, end) {
        lemma_closing(b, x.start, 1, end);
    }
}

/// Whether some bytes are elements one after the other, and so are the contents of those that hold
/// elements, `depth` levels down.
pub open spec fn is_nested(b: Seq<u8>, at: int, end: int, depth: nat) -> bool
    decreases depth, end - at,
{
    if at >= end {
        at == end
    } else {
        match part(b, at, end) {
            None => false,
            Some((start, stop, next)) => {
                proof {
                    lemma_part(b, at, end);
                }
                &&& b[at] / 32 % 2 == 1 && depth > 0 ==> is_nested(
                    b,
                    start,
                    stop,
                    (depth - 1) as nat,
                )
                &&& is_nested(b, next, end, depth)
            },
        }
    }
}

/// Finds where a tag of several bytes ends.
fn read_long_tag(b: &[u8], at: usize, end: usize) -> (r: Option<usize>)
    requires
        at <= end <= b@.len(),
    ensures
        match r {
            Some(p) => long_tag_end(b@, at as int, end as int) == Some(p as int),
            None => long_tag_end(b@, at as int, end as int) is None,
        },
{
    let mut i: usize = at;
    while i < end
        invariant
            at <= i <= end <= b@.len(),
            long_tag_end(b@, at as int, end as int) == long_tag_end(b@, i as int, end as int),
        decreases end - i,
    {
        if b[i] < 0x80 {
            return Some(i + 1);
        }
        i += 1;
    }
    None
}

/// Reads a number, unless it is greater than `most`.
fn read_number(b: &[u8], at: usize, n: usize, most: usize) -> (r: Option<usize>)
    requires
        at + n <= b@.len(),
    ensures
        match r {
            Some(v) => v == number(b@, at as int, n as nat) && v <= most,
            None => number(b@, at as int, n as nat) > most,
        },
{
    let behind: usize = b.len() - at;
    let mut v: usize = 0;
    let mut i: usize = 0;
    while i < n
        invariant
            i <= n <= behind,
            at + behind == b@.len(),
            b@.len() <= usize::MAX,
            v == number(b@, at as int, i as nat),
            v <= most,
        decreases n - i,
    {
        let byte: usize = b[at + i] as usize;
        proof {
            lemma_number_grows(b@, at as int, (i + 1) as nat, n as nat);
        }
        if byte > most || v > (most - byte) / 0x100 {
            return None;
        }
        v = v * 0x100 + byte;
        i += 1;
    }
    Some(v)
}

/// Reads the element at a place: whether it is open, and where its content starts and stops.
fn read_element(b: &[u8], at: usize, end: usize) -> (r: Option<(bool, usize, usize)>)
    requires
        at <= end <= b@.len(),
    ensures
        match r {
            Some((open, start, stop)) => element(b@, at as int, end as int) matches Some(x)
                && x.open == open && x.start == start && x.stop == stop && at + 1 < start <= stop
                <= end,
            None => element(b@, at as int, end as int) is None,
        },
{
    proof {
        lemma_element(b@, at as int, end as int);
        lemma_long_tag(b@, at + 1, end as int);
    }
    if at >= end {
        return None;
    }
    let p: usize = if b[at] % 32 == 31 {
        read_long_tag(b, at + 1, end)?
    } else {
        at + 1
    };
    if p >= end || b[p] == 0xff {
        return None;
    }
    let left: usize = end - (p + 1);
    if b[p] < 0x80 {
        let length: usize = b[p] as usize;
        return if length <= left {
            Some((false, p + 1, p + 1 + length))
        } else {
            None
        };
    }
    if b[p] == 0x80 {
        return if b[at] / 32 % 2 == 1 {
            Some((true, p + 1, p + 1))
        } else {
            None
        };
    }
    let n: usize = b[p] as usize - 0x80;
    if n > left {
        return None;
    }
    match read_number(b, p + 1, n, left - n) {
        Some(length) => Some((false, p + 1 + n, p + 1 + n + length)),
        None => None,
    }
}

/// Finds where an open element is closed whose content starts at a place.
fn read_closing(b: &[u8], at: usize, end: usize) -> (r: Option<usize>)
    requires
        at <= end <= b@.len(),
    ensures
        match r {
            Some(p) => closing(b@, at as int, 1, end as int) == Some(p as int),
            None => closing(b@, at as int, 1, end as int) is None,
        },
{
    let mut i: usize = at;
    let mut depth: usize = 1;
    while depth > 0
        invariant
            at <= i <= end <= b@.len(),
            depth <= i - at + 1,
            closing(b@, at as int, 1, end as int) == closing(
                b@,
                i as int,
                depth as nat,
                end as int,
            ),
        decreases end - i, depth,
    {
        if i >= end {
            return None;
        }
        if b[i] == 0 || b[i] == 0x20 {
            if end - i < 2 || b[i + 1] != 0 {
                return None;
            }
            depth -= 1;
            i += 2;
        } else {
            let (open, _start, stop) = read_element(b, i, end)?;
            if open {
                depth += 1;
            }
            i = stop;
        }
    }
    Some(i)
}

/// Reads the element at a place, with where what follows starts.
pub(crate) fn read_part(b: &[u8], at: usize, end: usize) -> (r: Option<(usize, usize, usize)>)
    requires
        at <= end <= b@.len(),
    ensures
        match r {
            Some((start, stop, next)) => part(b@, at as int, end as int) == Some(
                (start as int, stop as int, next as int),
            ) && at + 1 < start <= stop <= next <= end,
            None => part(b@, at as int, end as int) is None,
        },
{
    proof {
        lemma_part(b@, at as int, end as int);
    }
    let (open, start, stop) = read_element(b, at, end)?;
    if open {
        proof {
            lemma_closing(b@, start as int, 1, end as int);
        }
        let next: usize = read_closing(b, start, end)?;
        Some((start, next - 2, next))
    } else {
        Some((start, stop, stop))
    }
}

/// Tells whether some bytes are elements one after the other, `depth` levels down.
pub(crate) fn check_nested(b: &[u8], at: usize, end: usize, depth: usize) -> (r: bool)
    requires
        at <= end <= b@.len(),
    ensures
        r == is_nested(b@, at as int, end as int, depth as nat),
    decreases depth,
{
    let mut i: usize = at;
    while i < end
        invariant
            at <= i <= end <= b@.len(),
            is_nested(b@, at as int, end as int, depth as nat) == is_nested(
                b@,
                i as int,
                end as int,
                depth as nat,
            ),
        decreases end - i,
    {
        match read_part(b, i, end) {
            None => {
                return false;
            },
            Some((start, stop, next)) => {
                if b[i] / 32 % 2 == 1 && depth > 0 && !check_nested(b, start, stop, depth - 1) {
                    return false;
                }
                i = next;
            },
        }
    }
    true
}

} // verus!
