use vstd::prelude::*;

use crate::role::FrameType;
use vstd::string::StringSliceAdditionalSpecFns;

verus! {

/// What an incoming connection asks to be, read from its request path.
#[derive(Clone, Copy, Debug, PartialEq, Eq, Structural)]
pub enum Route {
    /// A device that streams measurements under the given client id.
    Writer { client: usize, frame: FrameType },
    /// A read-only connection that receives the pose table on every tick.
    Observer,
}

/// Why no session is started for a connection.
#[derive(Clone, Copy, Debug, PartialEq, Eq, Structural)]
pub enum RouteError {
    /// The path starts with none of the known role prefixes.
    UnknownRole,
    /// A writer path whose second segment is missing or not a client id.
    BadClientId,
}

/// `/`, the path separator.
pub const SLASH: u8 = 47;

/// `+`, which may lead a client id.
pub const PLUS: u8 = 43;

pub open spec fn racket_prefix() -> Seq<u8> {
    seq![114u8, 97u8, 99u8, 107u8, 101u8, 116u8]
}

pub open spec fn head_prefix() -> Seq<u8> {
    seq![104u8, 101u8, 97u8, 100u8]
}

pub open spec fn observer_prefix() -> Seq<u8> {
    seq![111u8, 98u8, 115u8, 101u8, 114u8, 118u8, 101u8, 114u8]
}

/// Number of leading bytes of `s` equal to `b`.
pub open spec fn run_len(s: Seq<u8>, b: u8) -> nat
    decreases s.len(),
{
    if s.len() > 0 && s[0] == b {
        1 + run_len(s.skip(1), b)
    } else {
        0
    }
}

/// Position of the first byte of `s` equal to `b`, or `s.len()` if there is none.
pub open spec fn index_of(s: Seq<u8>, b: u8) -> nat
    decreases s.len(),
{
    if s.len() == 0 {
        0
    } else if s[0] == b {
        0
    } else {
        1 + index_of(s.skip(1), b)
    }
}

pub open spec fn starts_with(s: Seq<u8>, p: Seq<u8>) -> bool {
    p.len() <= s.len() && s.take(p.len() as int) == p
}

pub open spec fn is_digit(b: u8) -> bool {
    48 <= b <= 57
}

pub open spec fn all_digits(s: Seq<u8>) -> bool {
    forall|i: int| 0 <= i < s.len() ==> is_digit(#[trigger] s[i])
}

/// Decimal value of a run of ASCII digits.
pub open spec fn digits_value(s: Seq<u8>) -> nat
    decreases s.len(),
{
    if s.len() == 0 {
        0
    } else {
        10 * digits_value(s.drop_last()) + (s.last() - 48) as nat
    }
}

/// The digits of a client id: the segment without one optional leading `+`.
pub open spec fn unsigned_digits(seg: Seq<u8>) -> Seq<u8> {
    if seg.len() > 0 && seg[0] == PLUS {
        seg.skip(1)
    } else {
        seg
    }
}

/// A client id is one optional `+` and one or more decimal digits whose value
/// fits in `usize`.
pub open spec fn client_id_of(seg: Seq<u8>) -> Option<usize> {
    let d = unsigned_digits(seg);
    if d.len() > 0 && all_digits(d) && digits_value(d) <= usize::MAX {
        Some(digits_value(d) as usize)
    } else {
        None
    }
}

/// The second `/`-separated segment of `u`, if `u` holds a `/` at all.
pub open spec fn second_segment(u: Seq<u8>) -> Option<Seq<u8>> {
    let k = index_of(u, SLASH);
    if k == u.len() {
        None
    } else {
        let rest = u.skip(k + 1 as int);
        Some(rest.take(index_of(rest, SLASH) as int))
    }
}

pub open spec fn writer_route(u: Seq<u8>, frame: FrameType) -> Result<Route, RouteError> {
    match second_segment(u) {
        Some(seg) => match client_id_of(seg) {
            Some(client) => Ok(Route::Writer { client, frame }),
            None => Err(RouteError::BadClientId),
        },
        None => Err(RouteError::BadClientId),
    }
}

/// The route of a request path: leading slashes are dropped, the rest is
/// matched against the role prefixes in turn (`racket`, `head`, `observer`),
/// and a writer takes its client id from the second segment. An observer's
/// second segment is not read.
pub open spec fn route_of(path: Seq<u8>) -> Result<Route, RouteError> {
    let u = path.skip(run_len(path, SLASH) as int);
    if starts_with(u, racket_prefix()) {
        writer_route(u, FrameType::Racket)
    } else if starts_with(u, head_prefix()) {
        writer_route(u, FrameType::Viewer)
    } else if starts_with(u, observer_prefix()) {
        Ok(Route::Observer)
    } else {
        Err(RouteError::UnknownRole)
    }
}

proof fn lemma_run_len(s: Seq<u8>, b: u8, i: int)
    requires
        0 <= i <= s.len(),
        forall|j: int| 0 <= j < i ==> s[j] == b,
        i == s.len() || s[i] != b,
    ensures
        run_len(s, b) == i,
    decreases i,
{
    if i > 0 {
        lemma_run_len(s.skip(1), b, i - 1);
    }
}

proof fn lemma_index_of(s: Seq<u8>, b: u8, i: int)
    requires
        0 <= i <= s.len(),
        forall|j: int| 0 <= j < i ==> s[j] != b,
        i == s.len() || s[i] == b,
    ensures
        index_of(s, b) == i,
    decreases i,
{
    if i > 0 {
        lemma_index_of(s.skip(1), b, i - 1);
    }
}

proof fn lemma_prefix_value_bounded(s: Seq<u8>, k: int)
    requires
        0 <= k <= s.len(),
    ensures
        digits_value(s.take(k)) <= digits_value(s),
    decreases s.len(),
{
    if k < s.len() {
        lemma_prefix_value_bounded(s.drop_last(), k);
        assert(s.drop_last().take(k) =~= s.take(k));
    } else {
        assert(s.take(k) =~= s);
    }
}

/// Index of the first position at or after `from` whose byte differs from `b`.
fn skip_run(s: &[u8], from: usize, b: u8) -> (i: usize)
    requires
        from <= s@.len(),
    ensures
        from <= i <= s@.len(),
        i - from == run_len(s@.skip(from as int), b),
{
    let mut i = from;
    while i < s.len() && s[i] == b
        invariant
            from <= i <= s@.len(),
            forall|j: int| from <= j < i ==> s@[j] == b,
        decreases s@.len() - i,
    {
        i = i + 1;
    }
    proof {
        lemma_run_len(s@.skip(from as int), b, i - from);
    }
    i
}

/// Index of the first position at or after `from` whose byte is `b`, or the length.
fn find_byte(s: &[u8], from: usize, b: u8) -> (i: usize)
    requires
        from <= s@.len(),
    ensures
        from <= i <= s@.len(),
        i - from == index_of(s@.skip(from as int), b),
{
    let mut i = from;
    while i < s.len() && s[i] != b
        invariant
            from <= i <= s@.len(),
            forall|j: int| from <= j < i ==> s@[j] != b,
        decreases s@.len() - i,
    {
        i = i + 1;
    }
    proof {
        lemma_index_of(s@.skip(from as int), b, i - from);
    }
    i
}

/// Whether the bytes of `s` from `at` on begin with `p`.
fn has_prefix_at(s: &[u8], at: usize, p: &[u8]) -> (r: bool)
    requires
        at <= s@.len(),
    ensures
        r == starts_with(s@.skip(at as int), p@),
{
    let ghost u = s@.skip(at as int);
    if p.len() > s.len() - at {
        return false;
    }
    let mut i: usize = 0;
    while i < p.len()
        invariant
            at + p@.len() <= s.len(),
            u == s@.skip(at as int),
            0 <= i <= p@.len(),
            forall|j: int| 0 <= j < i ==> u[j] == p@[j],
        decreases p@.len() - i,
    {
        if s[at + i] != p[i] {
            assert(u.take(p@.len() as int)[i as int] != p@[i as int]);
            return false;
        }
        i = i + 1;
    }
    assert(u.take(p@.len() as int) =~= p@);
    true
}

/// The client id held in `s[lo..hi]`.
fn parse_client_id(s: &[u8], lo: usize, hi: usize) -> (r: Option<usize>)
    requires
        lo <= hi <= s@.len(),
    ensures
        r == client_id_of(s@.subrange(lo as int, hi as int)),
{
    let ghost seg = s@.subrange(lo as int, hi as int);
    let mut start = lo;
    if lo < hi && s[lo] == PLUS {
        start = lo + 1;
    }
    let ghost d = s@.subrange(start as int, hi as int);
    assert(d =~= unsigned_digits(seg));
    if start == hi {
        return None;
    }
    let mut value: usize = 0;
    let mut i = start;
    while i < hi
        invariant
            lo <= start <= i <= hi <= s@.len(),
            d == s@.subrange(start as int, hi as int),
            seg == s@.subrange(lo as int, hi as int),
            d == unsigned_digits(seg),
            forall|j: int| 0 <= j < i - start ==> is_digit(#[trigger] d[j]),
            value == digits_value(d.take(i - start)),
        decreases hi - i,
    {
        let c = s[i];
        if c < 48 || c > 57 {
            assert(!is_digit(d[i - start]));
            return None;
        }
        let ghost k = i - start;
        assert(d.take(k + 1).drop_last() =~= d.take(k));
        assert(d.take(k + 1).last() == c);
        let digit = (c - 48) as usize;
        let grown = value.checked_mul(10);
        match grown {
            Some(g) => {
                match g.checked_add(digit) {
                    Some(n) => {
                        value = n;
                    },
                    None => {
                        proof {
                            if all_digits(d) {
                                lemma_prefix_value_bounded(d, k + 1);
                            }
                        }
                        return None;
                    },
                }
            },
            None => {
                proof {
                    if all_digits(d) {
                        lemma_prefix_value_bounded(d, k + 1);
                    }
                }
                return None;
            },
        }
        i = i + 1;
    }
    assert(d.take(hi - start) =~= d);
    Some(value)
}

/// Reads the role and client id from a request path of the form
/// `/<role>/<client-id>`.
pub fn route(path: &str) -> (r: Result<Route, RouteError>)
    ensures
        r == route_of(path.spec_bytes()),
{
    let s = path.as_bytes();
    let start = skip_run(s, 0, SLASH);
    assert(s@.skip(0) =~= s@);
    let ghost u = s@.skip(start as int);
    let racket: Vec<u8> = vec![114u8, 97u8, 99u8, 107u8, 101u8, 116u8];
    let head: Vec<u8> = vec![104u8, 101u8, 97u8, 100u8];
    let observer: Vec<u8> = vec![111u8, 98u8, 115u8, 101u8, 114u8, 118u8, 101u8, 114u8];
    assert(racket@ =~= racket_prefix());
    assert(head@ =~= head_prefix());
    assert(observer@ =~= observer_prefix());
    let frame = if has_prefix_at(s, start, racket.as_slice()) {
        FrameType::Racket
    } else if has_prefix_at(s, start, head.as_slice()) {
        FrameType::Viewer
    } else if has_prefix_at(s, start, observer.as_slice()) {
        return Ok(Route::Observer);
    } else {
        return Err(RouteError::UnknownRole);
    };
    let k = find_byte(s, start, SLASH);
    if k == s.len() {
        return Err(RouteError::BadClientId);
    }
    let ghost rest = u.skip(k - start + 1);
    assert(rest =~= s@.skip(k + 1));
    let end = find_byte(s, k + 1, SLASH);
    assert(rest.take(end - (k + 1)) =~= s@.subrange(k + 1, end as int));
    match parse_client_id(s, k + 1, end) {
        Some(client) => Ok(Route::Writer { client, frame }),
        None => Err(RouteError::BadClientId),
    }
}

} // verus!
