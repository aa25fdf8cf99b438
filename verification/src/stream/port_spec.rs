use vstd::prelude::*;
use vstd::seq_lib::group_to_multiset_ensures;
use vstd::utf8::encode_utf8;

verus! {

broadcast use group_to_multiset_ensures;

/// The byte that separates the entries of a port specification ("1-10,19,21").
pub const ENTRY_SEPARATOR: u8 = 44;

/// The byte that separates the two ends of a port range.
pub const RANGE_SEPARATOR: u8 = 45;

/// The pieces of `s` between occurrences of `sep`, as `str::split` yields them:
/// there is always at least one piece, and empty pieces are kept.
pub open spec fn split_on(s: Seq<u8>, sep: u8) -> Seq<Seq<u8>>
    decreases s.len(),
{
    if s.len() == 0 {
        seq![Seq::<u8>::empty()]
    } else {
        let prev = split_on(s.drop_last(), sep);
        if s.last() == sep {
            prev.push(Seq::<u8>::empty())
        } else {
            prev.update(prev.len() - 1, prev.last().push(s.last()))
        }
    }
}

pub proof fn lemma_split_on_nonempty(s: Seq<u8>, sep: u8)
    ensures
        split_on(s, sep).len() >= 1,
    decreases s.len(),
{
    if s.len() > 0 {
        lemma_split_on_nonempty(s.drop_last(), sep);
    }
}

pub open spec fn is_digit(b: u8) -> bool {
    48 <= b <= 57
}

/// The decimal value of a sequence of ASCII digits.
pub open spec fn digits_value(d: Seq<u8>) -> nat
    decreases d.len(),
{
    if d.len() == 0 {
        0
    } else {
        digits_value(d.drop_last()) * 10 + (d.last() - 48) as nat
    }
}

pub open spec fn all_digits(d: Seq<u8>) -> bool {
    forall|i: int| 0 <= i < d.len() ==> is_digit(#[trigger] d[i])
}

/// The digits that an unsigned integer parse reads: one leading '+' is allowed.
pub open spec fn unsigned_digits(p: Seq<u8>) -> Seq<u8> {
    if p.len() > 0 && p[0] == 43 {
        p.drop_first()
    } else {
        p
    }
}

/// What parsing `p` as a `u16` gives: at least one digit after an optional '+',
/// nothing else, and a value that fits.
pub open spec fn parse_u16_spec(p: Seq<u8>) -> Option<u16> {
    let d = unsigned_digits(p);
    if d.len() > 0 && all_digits(d) && digits_value(d) <= 65535 {
        Some(digits_value(d) as u16)
    } else {
        None
    }
}

/// The ports `first..=last`, in ascending order; empty when `first > last`.
pub open spec fn port_range(first: u16, last: u16) -> Seq<u16> {
    Seq::new(
        if first <= last { (last - first + 1) as nat } else { 0 },
        |i: int| (first + i) as u16,
    )
}

/// A range lists every port from its first to its last, each once, in ascending
/// order: a port is listed exactly when it lies between the two ends (inclusive),
/// so a range whose ends are equal lists that one port, and a range of `a..=b`
/// holds `b - a + 1` ports.
pub proof fn lemma_port_range_members(first: u16, last: u16)
    ensures
        forall|p: u16| #[trigger] port_range(first, last).contains(p) == (first <= p && p <= last),
        forall|i: int, j: int|
            0 <= i < j < port_range(first, last).len() ==> #[trigger] port_range(first, last)[i]
                < #[trigger] port_range(first, last)[j],
        first <= last ==> port_range(first, last).len() == last - first + 1,
        first <= last ==> port_range(first, last)[0] == first,
{
    let r = port_range(first, last);
    assert forall|p: u16| #[trigger] r.contains(p) == (first <= p && p <= last) by {
        if first <= p && p <= last {
            assert(r[p - first] == p);
        }
    }
}

/// An entry is a single port, or a range whose first and last dash-separated
/// parts are ports (parts in between are not read).
pub open spec fn entry_valid(p: Seq<u8>) -> bool {
    if p.contains(RANGE_SEPARATOR) {
        let parts = split_on(p, RANGE_SEPARATOR);
        parse_u16_spec(parts[0]) is Some && parse_u16_spec(parts.last()) is Some
    } else {
        parse_u16_spec(p) is Some
    }
}

pub open spec fn entry_ports(p: Seq<u8>) -> Seq<u16> {
    if p.contains(RANGE_SEPARATOR) {
        let parts = split_on(p, RANGE_SEPARATOR);
        port_range(parse_u16_spec(parts[0]).unwrap(), parse_u16_spec(parts.last()).unwrap())
    } else {
        seq![parse_u16_spec(p).unwrap()]
    }
}

pub open spec fn entries_ports(entries: Seq<Seq<u8>>) -> Seq<u16>
    decreases entries.len(),
{
    if entries.len() == 0 {
        Seq::<u16>::empty()
    } else {
        entries_ports(entries.drop_last()) + entry_ports(entries.last())
    }
}

/// A port specification is empty, or each of its comma-separated entries is valid.
pub open spec fn port_spec_valid(s: Seq<u8>) -> bool {
    s.len() == 0 || forall|i: int|
        0 <= i < split_on(s, ENTRY_SEPARATOR).len() ==> entry_valid(
            #[trigger] split_on(s, ENTRY_SEPARATOR)[i],
        )
}

/// The ports that a specification lists, in the order it lists them.
pub open spec fn port_spec_ports(s: Seq<u8>) -> Seq<u16> {
    if s.len() == 0 {
        Seq::<u16>::empty()
    } else {
        entries_ports(split_on(s, ENTRY_SEPARATOR))
    }
}

pub open spec fn sorted_u16(s: Seq<u16>) -> bool {
    forall|i: int, j: int| 0 <= i <= j < s.len() ==> s[i] <= s[j]
}

/// Splits `s` at each `sep`.
pub fn split_bytes(s: &[u8], sep: u8) -> (pieces: Vec<Vec<u8>>)
    ensures
        pieces@.len() == split_on(s@, sep).len(),
        forall|i: int| 0 <= i < pieces@.len() ==> (#[trigger] pieces@[i])@ == split_on(s@, sep)[i],
{
    let mut pieces: Vec<Vec<u8>> = Vec::new();
    let mut current: Vec<u8> = Vec::new();
    let n = s.len();
    proof {
        assert(s@.take(0) =~= Seq::<u8>::empty());
    }
    for i in 0..n
        invariant
            n == s@.len(),
            pieces@.len() + 1 == split_on(s@.take(i as int), sep).len(),
            forall|j: int|
                0 <= j < pieces@.len() ==> (#[trigger] pieces@[j])@ == split_on(
                    s@.take(i as int),
                    sep,
                )[j],
            current@ == split_on(s@.take(i as int), sep).last(),
    {
        proof {
            assert(s@.take(i + 1).drop_last() =~= s@.take(i as int));
            lemma_split_on_nonempty(s@.take(i as int), sep);
        }
        if s[i] == sep {
            pieces.push(current);
            current = Vec::new();
        } else {
            current.push(s[i]);
        }
    }
    proof {
        assert(s@.take(n as int) =~= s@);
    }
    pieces.push(current);
    pieces
}

pub proof fn lemma_digits_value_monotone(d: Seq<u8>, i: int)
    requires
        0 <= i <= d.len(),
        all_digits(d),
    ensures
        digits_value(d.take(i)) <= digits_value(d),
    decreases d.len() - i,
{
    if i < d.len() {
        lemma_digits_value_monotone(d, i + 1);
        assert(d.take(i + 1).drop_last() =~= d.take(i));
    } else {
        assert(d.take(i) =~= d);
    }
}

/// Parses `p` as a `u16`, with the rules of `u16::from_str`.
pub fn parse_u16(p: &[u8]) -> (r: Option<u16>)
    ensures
        r == parse_u16_spec(p@),
{
    let n = p.len();
    let start: usize = if n > 0 && p[0] == 43 {
        1
    } else {
        0
    };
    let ghost d = unsigned_digits(p@);
    proof {
        assert(d =~= p@.subrange(start as int, n as int));
    }
    if start >= n {
        return None;
    }
    let mut value: u32 = 0;
    let mut i: usize = start;
    while i < n
        invariant
            start <= i <= n,
            n == p@.len(),
            d == unsigned_digits(p@),
            d =~= p@.subrange(start as int, n as int),
            value == digits_value(d.take(i - start)),
            value <= 65535,
            forall|k: int| 0 <= k < i - start ==> is_digit(#[trigger] d[k]),
        decreases n - i,
    {
        let b = p[i];
        assert(d[i - start] == b);
        if b < 48 || b > 57 {
            assert(!is_digit(d[i - start]));
            assert(!all_digits(d));
            return None;
        }
        proof {
            assert(d.take(i - start + 1).drop_last() =~= d.take(i - start));
            assert(d.take(i - start + 1).last() == b);
        }
        value = value * 10 + (b - 48) as u32;
        i = i + 1;
        if value > 65535 {
            proof {
                if all_digits(d) {
                    lemma_digits_value_monotone(d, i - start);
                }
            }
            return None;
        }
    }
    proof {
        assert(d.take(n - start) =~= d);
    }
    Some(value as u16)
}

fn contains_byte(p: &[u8], b: u8) -> (r: bool)
    ensures
        r == p@.contains(b),
{
    let n = p.len();
    for i in 0..n
        invariant
            n == p@.len(),
            forall|k: int| 0 <= k < i ==> p@[k] != b,
    {
        if p[i] == b {
            assert(p@[i as int] == b);
            return true;
        }
    }
    false
}

/// Whether `port_spec` is one that `parse_port_spec` accepts.
pub fn port_spec_is_valid(port_spec: &str) -> (r: bool)
    ensures
        r == port_spec_valid(encode_utf8(port_spec@)),
{
    let bytes = port_spec.as_bytes();
    if bytes.len() == 0 {
        return true;
    }
    let entries = split_bytes(bytes, ENTRY_SEPARATOR);
    let ghost s = bytes@;
    let m = entries.len();
    for i in 0..m
        invariant
            s == encode_utf8(port_spec@),
            s.len() > 0,
            m == entries@.len(),
            m == split_on(s, ENTRY_SEPARATOR).len(),
            forall|k: int| 0 <= k < m ==> (#[trigger] entries@[k])@ == split_on(s, ENTRY_SEPARATOR)[k],
            forall|k: int| 0 <= k < i ==> entry_valid(#[trigger] split_on(s, ENTRY_SEPARATOR)[k]),
    {
        let entry = entries[i].as_slice();
        assert(entry@ == split_on(s, ENTRY_SEPARATOR)[i as int]);
        if contains_byte(entry, RANGE_SEPARATOR) {
            let parts = split_bytes(entry, RANGE_SEPARATOR);
            proof {
                lemma_split_on_nonempty(entry@, RANGE_SEPARATOR);
            }
            let last = parts.len() - 1;
            if parse_u16(parts[0].as_slice()).is_none() || parse_u16(parts[last].as_slice()).is_none() {
                assert(!entry_valid(split_on(s, ENTRY_SEPARATOR)[i as int]));
                return false;
            }
        } else {
            if parse_u16(entry).is_none() {
                assert(!entry_valid(split_on(s, ENTRY_SEPARATOR)[i as int]));
                return false;
            }
        }
    }
    true
}

/// Appends the ports `first..=last` to `ports`.
fn push_port_range(ports: &mut Vec<u16>, first: u16, last: u16)
    ensures
        final(ports)@ == old(ports)@ + port_range(first, last),
{
    if first > last {
        proof {
            assert(port_range(first, last) =~= Seq::<u16>::empty());
            assert(old(ports)@ + port_range(first, last) =~= old(ports)@);
        }
        return;
    }
    let ghost start = ports@;
    let mut port: u16 = first;
    loop
        invariant
            first <= port <= last,
            start == old(ports)@,
            ports@ =~= start + port_range(first, last).take(port - first),
        decreases last - port,
    {
        ports.push(port);
        proof {
            assert(port_range(first, last).take(port - first + 1) =~= port_range(first, last).take(
                port - first,
            ).push(port));
            assert(ports@ =~= start + port_range(first, last).take(port - first + 1));
        }
        if port == last {
            proof {
                assert(port_range(first, last).take(port - first + 1) =~= port_range(first, last));
            }
            return;
        }
        port = port + 1;
    }
}

/// Sorts ports into ascending order, keeping every occurrence.
pub fn sort_ports(v: Vec<u16>) -> (r: Vec<u16>)
    ensures
        sorted_u16(r@),
        r@.to_multiset() =~= v@.to_multiset(),
{
    broadcast use vstd::multiset::group_multiset_axioms, vstd::multiset::group_multiset_properties;
    // counting sort over the whole u16 range
    let mut counts: Vec<usize> = Vec::new();
    let mut k: usize = 0;
    while k < 65536
        invariant
            k <= 65536,
            counts@.len() == k,
            forall|x: int| 0 <= x < k ==> counts@[x] == 0,
        decreases 65536 - k,
    {
        counts.push(0);
        k = k + 1;
    }
    proof {
        assert forall|x: u16| #[trigger] counts@[x as int] == v@.take(0).to_multiset().count(x) by {
            assert(v@.take(0) =~= Seq::<u16>::empty());
        }
    }
    let n = v.len();
    for i in 0..n
        invariant
            n == v@.len(),
            counts@.len() == 65536,
            forall|x: u16| #[trigger] counts@[x as int] == v@.take(i as int).to_multiset().count(x),
    {
        let x = v[i];
        proof {
            assert(v@.take(i + 1) =~= v@.take(i as int).push(x));
            assert(v@.take(i as int).to_multiset().len() == i);
            assert(v@.take(i as int).to_multiset().count(x) <= v@.take(i as int).to_multiset().len());
        }
        let c = counts[x as usize];
        counts.set(x as usize, c + 1);
    }
    proof {
        assert(v@.take(n as int) =~= v@);
    }
    let mut out: Vec<u16> = Vec::new();
    let mut x: usize = 0;
    while x < 65536
        invariant
            x <= 65536,
            counts@.len() == 65536,
            forall|y: u16| #[trigger] counts@[y as int] == v@.to_multiset().count(y),
            sorted_u16(out@),
            forall|i: int| 0 <= i < out@.len() ==> out@[i] < x,
            forall|y: u16|
                #[trigger] out@.to_multiset().count(y) == (if y < x {
                    v@.to_multiset().count(y)
                } else {
                    0
                }),
        decreases 65536 - x,
    {
        let c = counts[x];
        let mut j: usize = 0;
        while j < c
            invariant
                x < 65536,
                j <= c,
                c == v@.to_multiset().count(x as u16),
                sorted_u16(out@),
                forall|i: int| 0 <= i < out@.len() ==> out@[i] <= x,
                forall|y: u16|
                    #[trigger] out@.to_multiset().count(y) == (if y < x {
                        v@.to_multiset().count(y)
                    } else if y == x {
                        j as nat
                    } else {
                        0
                    }),
            decreases c - j,
        {
            out.push(x as u16);
            j = j + 1;
        }
        x = x + 1;
    }
    proof {
        assert forall|y: u16| out@.to_multiset().count(y) == v@.to_multiset().count(y) by {}
        assert(out@.to_multiset() =~= v@.to_multiset());
    }
    out
}

/// Reads a port specification such as "1-10,19,21" into the ports it lists,
/// in ascending order; an empty specification lists none.
pub fn parse_port_spec(port_spec: &str) -> (ports: Vec<u16>)
    requires
        port_spec_valid(encode_utf8(port_spec@)),
    ensures
        sorted_u16(ports@),
        ports@.to_multiset() =~= port_spec_ports(encode_utf8(port_spec@)).to_multiset(),
{
    let bytes = port_spec.as_bytes();
    let ghost s = bytes@;
    let mut ports: Vec<u16> = Vec::new();
    if bytes.len() == 0 {
        return ports;
    }
    let entries = split_bytes(bytes, ENTRY_SEPARATOR);
    let m = entries.len();
    proof {
        assert(split_on(s, ENTRY_SEPARATOR).take(0) =~= Seq::<Seq<u8>>::empty());
    }
    for i in 0..m
        invariant
            s.len() > 0,
            port_spec_valid(s),
            m == entries@.len(),
            m == split_on(s, ENTRY_SEPARATOR).len(),
            forall|k: int| 0 <= k < m ==> (#[trigger] entries@[k])@ == split_on(s, ENTRY_SEPARATOR)[k],
            ports@ =~= entries_ports(split_on(s, ENTRY_SEPARATOR).take(i as int)),
    {
        let entry = entries[i].as_slice();
        let ghost es = split_on(s, ENTRY_SEPARATOR);
        assert(entry@ == es[i as int]);
        assert(entry_valid(es[i as int]));
        proof {
            assert(es.take(i + 1).drop_last() =~= es.take(i as int));
        }
        if contains_byte(entry, RANGE_SEPARATOR) {
            let parts = split_bytes(entry, RANGE_SEPARATOR);
            proof {
                lemma_split_on_nonempty(entry@, RANGE_SEPARATOR);
            }
            let last = parts.len() - 1;
            let first_port = parse_u16(parts[0].as_slice()).unwrap();
            let last_port = parse_u16(parts[last].as_slice()).unwrap();
            push_port_range(&mut ports, first_port, last_port);
        } else {
            let port = parse_u16(entry).unwrap();
            ports.push(port);
            proof {
                assert(entry_ports(entry@) =~= seq![port]);
            }
        }
    }
    proof {
        assert(split_on(s, ENTRY_SEPARATOR).take(m as int) =~= split_on(s, ENTRY_SEPARATOR));
    }
    sort_ports(ports)
}

/// The order in which a pool of `len` ports is searched when the last port bound
/// was at `pos`: from the one after it to the end, then from the start round to it.
pub open spec fn search_order(len: nat, pos: nat) -> Seq<usize> {
    Seq::new(len, |k: int| ((pos + 1 + k) % (len as int)) as usize)
}

/// The pool indices to try, in order, when the last port bound was at `pos`.
pub fn bind_order(len: usize, pos: usize) -> (r: Vec<usize>)
    requires
        pos < len,
    ensures
        r@ == search_order(len as nat, pos as nat),
{
    let mut r: Vec<usize> = Vec::new();
    let mut idx: usize = pos + 1;
    while idx < len
        invariant
            pos < len,
            pos + 1 <= idx <= len,
            r@.len() == idx - pos - 1,
            forall|k: int| 0 <= k < r@.len() ==> #[trigger] r@[k] == search_order(len as nat, pos as nat)[k],
        decreases len - idx,
    {
        proof {
            let k = idx - pos - 1;
            assert((pos + 1 + k) % (len as int) == idx) by (nonlinear_arith)
                requires
                    pos + 1 + k == idx,
                    0 <= idx < len,
            ;
        }
        r.push(idx);
        idx = idx + 1;
    }
    let mut j: usize = 0;
    while j <= pos
        invariant
            pos < len,
            j <= pos + 1,
            r@.len() == len - pos - 1 + j,
            forall|k: int| 0 <= k < r@.len() ==> #[trigger] r@[k] == search_order(len as nat, pos as nat)[k],
        decreases pos + 1 - j,
    {
        proof {
            let k = len - pos - 1 + j;
            assert((pos + 1 + k) % (len as int) == j) by (nonlinear_arith)
                requires
                    pos + 1 + k == len + j,
                    0 <= j < len,
            ;
        }
        r.push(j);
        j = j + 1;
    }
    assert(r@ =~= search_order(len as nat, pos as nat));
    r
}

/// What parsing `p` as a `usize` gives, with the rules of `usize::from_str`.
pub open spec fn parse_usize_spec(p: Seq<u8>) -> Option<usize> {
    let d = unsigned_digits(p);
    if d.len() > 0 && all_digits(d) && digits_value(d) <= usize::MAX {
        Some(digits_value(d) as usize)
    } else {
        None
    }
}

/// Parses `p` as a `usize`, with the rules of `usize::from_str`.
pub fn parse_usize(p: &[u8]) -> (r: Option<usize>)
    ensures
        r == parse_usize_spec(p@),
{
    let n = p.len();
    let start: usize = if n > 0 && p[0] == 43 {
        1
    } else {
        0
    };
    let ghost d = unsigned_digits(p@);
    proof {
        assert(d =~= p@.subrange(start as int, n as int));
    }
    if start >= n {
        return None;
    }
    let mut value: usize = 0;
    let mut i: usize = start;
    while i < n
        invariant
            start <= i <= n,
            n == p@.len(),
            d == unsigned_digits(p@),
            d =~= p@.subrange(start as int, n as int),
            value == digits_value(d.take(i - start)),
            forall|k: int| 0 <= k < i - start ==> is_digit(#[trigger] d[k]),
        decreases n - i,
    {
        let b = p[i];
        assert(d[i - start] == b);
        if b < 48 || b > 57 {
            assert(!is_digit(d[i - start]));
            assert(!all_digits(d));
            return None;
        }
        let digit = (b - 48) as usize;
        proof {
            assert(d.take(i - start + 1).drop_last() =~= d.take(i - start));
            assert(d.take(i - start + 1).last() == b);
        }
        if value > (usize::MAX - digit) / 10 {
            proof {
                assert(value * 10 + digit > usize::MAX) by (nonlinear_arith)
                    requires
                        value > (usize::MAX - digit) / 10,
                        digit <= 9,
                ;
                if all_digits(d) {
                    lemma_digits_value_monotone(d, i - start + 1);
                }
            }
            return None;
        }
        proof {
            assert(value * 10 + digit <= usize::MAX) by (nonlinear_arith)
                requires
                    value <= (usize::MAX - digit) / 10,
                    digit <= 9,
            ;
        }
        value = value * 10 + digit;
        i = i + 1;
    }
    proof {
        assert(d.take(n - start) =~= d);
    }
    Some(value)
}

/// A bind search tries every port of the pool exactly once, beginning with the
/// one after the port last bound and ending with that port.
pub proof fn lemma_search_order_covers(len: nat, pos: nat)
    requires
        pos < len <= usize::MAX,
    ensures
        search_order(len, pos).len() == len,
        search_order(len, pos)[len - 1] == pos,
        forall|j: int|
            0 <= j < len ==> #[trigger] search_order(len, pos)[((j - pos - 1) + len) % (len as int)]
                == j,
        forall|a: int, b: int|
            0 <= a < b < len ==> #[trigger] search_order(len, pos)[a] != #[trigger] search_order(
                len,
                pos,
            )[b],
{
    assert((pos + 1 + (len - 1)) % (len as int) == pos) by (nonlinear_arith)
        requires
            pos < len,
    ;
    assert forall|j: int| 0 <= j < len implies #[trigger] search_order(len, pos)[((j - pos - 1) + len)
        % (len as int)] == j by {
        let k = ((j - pos - 1) + len) % (len as int);
        assert(0 <= k < len && (pos + 1 + k) % (len as int) == j) by (nonlinear_arith)
            requires
                0 <= j < len,
                pos < len,
                k == ((j - pos - 1) + len) % (len as int),
        ;
        assert(search_order(len, pos)[k] == ((pos + 1 + k) % (len as int)) as usize);
    }
    assert forall|a: int, b: int| 0 <= a < b < len implies #[trigger] search_order(len, pos)[a]
        != #[trigger] search_order(len, pos)[b] by {
        assert((pos + 1 + a) % (len as int) != (pos + 1 + b) % (len as int)) by (nonlinear_arith)
            requires
                0 <= a < b < len,
        ;
        assert(0 <= (pos + 1 + a) % (len as int) < len) by (nonlinear_arith)
            requires
                0 <= a,
                len > 0,
        ;
        assert(0 <= (pos + 1 + b) % (len as int) < len) by (nonlinear_arith)
            requires
                0 <= b,
                len > 0,
        ;
    }
}

} // verus!
