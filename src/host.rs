//! Hosts of network bindings: an IPv4 literal in dotted-quad form, or an
//! IPv6 literal in brackets.
use vstd::prelude::*;
use crate::binding::{decimal_value, is_digit, parse_port, valid_port};
use crate::daemon::texts;

verus! {

/// The fields of `s` between the separators `sep`, in order; there is always
/// one more field than separators.
pub open spec fn split(s: Seq<char>, sep: char) -> Seq<Seq<char>>
    decreases s.len(),
{
    if s.len() == 0 {
        seq![Seq::empty()]
    } else {
        let f = split(s.drop_last(), sep);
        if s.last() == sep {
            f.push(Seq::empty())
        } else {
            f.drop_last().push(f.last().push(s.last()))
        }
    }
}

proof fn lemma_split_nonempty(s: Seq<char>, sep: char)
    ensures
        split(s, sep).len() >= 1,
    decreases s.len(),
{
    if s.len() > 0 {
        lemma_split_nonempty(s.drop_last(), sep);
    }
}

/// An IPv4 octet: one to three decimal digits, at most 255, without a
/// leading zero.
pub open spec fn valid_octet(f: Seq<char>) -> bool {
    &&& 1 <= f.len() <= 3
    &&& forall|k: int| 0 <= k < f.len() ==> is_digit(#[trigger] f[k])
    &&& decimal_value(f) <= 255
    &&& (f.len() == 1 || f[0] != '0')
}

/// An IPv4 literal: four octets separated by dots.
pub open spec fn valid_ipv4(h: Seq<char>) -> bool {
    &&& split(h, '.').len() == 4
    &&& forall|k: int| 0 <= k < 4 ==> valid_octet(#[trigger] split(h, '.')[k])
}

/// A hexadecimal digit.
pub open spec fn is_hex(c: char) -> bool {
    ('0' <= c && c <= '9') || ('a' <= c && c <= 'f') || ('A' <= c && c <= 'F')
}

/// An IPv6 group: one to four hexadecimal digits.
pub open spec fn valid_group(f: Seq<char>) -> bool {
    &&& 1 <= f.len() <= 4
    &&& forall|k: int| 0 <= k < f.len() ==> is_hex(#[trigger] f[k])
}

/// Empty, or groups separated by single colons.
pub open spec fn groups_ok(x: Seq<char>) -> bool {
    x.len() == 0 || forall|k: int|
        0 <= k < split(x, ':').len() ==> valid_group(#[trigger] split(x, ':')[k])
}

/// How many groups `x` holds.
pub open spec fn group_count(x: Seq<char>) -> nat {
    if x.len() == 0 {
        0
    } else {
        split(x, ':').len()
    }
}

/// Groups separated by single colons, the last of them an IPv4 literal.
pub open spec fn ipv4_tailed(x: Seq<char>) -> bool {
    &&& x.len() > 0
    &&& valid_ipv4(split(x, ':').last())
    &&& forall|k: int| 0 <= k < split(x, ':').len() - 1 ==> valid_group(#[trigger] split(x, ':')[k])
}

/// Empty, or groups separated by single colons, of which the last may be an
/// IPv4 literal.
pub open spec fn fields_ok(x: Seq<char>) -> bool {
    groups_ok(x) || ipv4_tailed(x)
}

/// How many 16-bit groups `x` stands for: an IPv4 literal stands for two.
pub open spec fn units(x: Seq<char>) -> nat {
    if groups_ok(x) {
        group_count(x)
    } else {
        split(x, ':').len() + 1
    }
}

/// `::` stands at position `i` of `a`, and around it stand at most seven
/// groups; only the part after it may end in an IPv4 literal.
pub open spec fn compressed_at(a: Seq<char>, i: int) -> bool {
    &&& 0 <= i && i + 2 <= a.len()
    &&& a[i] == ':' && a[i + 1] == ':'
    &&& groups_ok(a.subrange(0, i))
    &&& fields_ok(a.subrange(i + 2, a.len() as int))
    &&& group_count(a.subrange(0, i)) + units(a.subrange(i + 2, a.len() as int)) <= 7
}

/// An IPv6 literal (without brackets): eight groups, or fewer with one `::`
/// standing for the groups left out. The last two groups may be written as
/// an IPv4 literal (`::ffff:1.2.3.4`).
pub open spec fn valid_ipv6(a: Seq<char>) -> bool {
    (a.len() > 0 && fields_ok(a) && units(a) == 8) || exists|i: int| compressed_at(a, i)
}

/// A network host: an IPv4 literal, or an IPv6 literal in brackets.
pub open spec fn valid_host(h: Seq<char>) -> bool {
    valid_ipv4(h) || (h.len() >= 2 && h[0] == '[' && h.last() == ']' && valid_ipv6(
        h.subrange(1, h.len() - 1),
    ))
}

/// The fields of `s` between the separators `sep`.
pub fn split_text(s: &str, sep: char) -> (r: Vec<String>)
    ensures
        texts(r@) == split(s@, sep),
{
    let n = s.unicode_len();
    let mut r: Vec<String> = Vec::new();
    let mut start: usize = 0;
    let mut i: usize = 0;
    proof {
        assert(s@.subrange(0, 0) =~= Seq::<char>::empty());
        assert(texts(r@).push(s@.subrange(0, 0)) =~= split(s@.subrange(0, 0), sep));
    }
    while i < n
        invariant
            n == s@.len(),
            start <= i <= n,
            texts(r@).push(s@.subrange(start as int, i as int)) == split(
                s@.subrange(0, i as int),
                sep,
            ),
        decreases n - i,
    {
        let ghost pre = s@.subrange(0, i as int);
        proof {
            assert(s@.subrange(0, i + 1).drop_last() =~= pre);
            lemma_split_nonempty(pre, sep);
        }
        if s.get_char(i) == sep {
            let ghost old_r = r@;
            r.push(s.substring_char(start, i).to_owned());
            proof {
                assert(texts(r@) =~= texts(old_r).push(s@.subrange(start as int, i as int)));
                assert(s@.subrange(i + 1, i + 1) =~= Seq::<char>::empty());
            }
            start = i + 1;
        } else {
            proof {
                let f = split(pre, sep);
                assert(f.drop_last() =~= texts(r@));
                assert(s@.subrange(start as int, i + 1) =~= f.last().push(s@[i as int]));
                assert(texts(r@).push(s@.subrange(start as int, i + 1)) =~= f.drop_last().push(
                    f.last().push(s@[i as int]),
                ));
            }
        }
        i = i + 1;
    }
    let ghost old_r = r@;
    r.push(s.substring_char(start, n).to_owned());
    proof {
        assert(texts(r@) =~= texts(old_r).push(s@.subrange(start as int, n as int)));
        assert(s@.subrange(0, n as int) =~= s@);
    }
    r
}

/// Whether `f` is an IPv4 octet.
fn is_octet(f: &str) -> (r: bool)
    ensures
        r == valid_octet(f@),
{
    let n = f.unicode_len();
    if n < 1 || n > 3 {
        return false;
    }
    let v = match parse_port(f) {
        Some(v) => v,
        None => {
            return false;
        },
    };
    if v > 255 {
        return false;
    }
    n == 1 || f.get_char(0) != '0'
}

/// Whether `h` is an IPv4 literal.
fn is_ipv4(h: &str) -> (r: bool)
    ensures
        r == valid_ipv4(h@),
{
    let fields = split_text(h, '.');
    if fields.len() != 4 {
        return false;
    }
    let mut k: usize = 0;
    while k < 4
        invariant
            fields.len() == 4,
            texts(fields@) == split(h@, '.'),
            k <= 4,
            forall|j: int| 0 <= j < k ==> valid_octet(#[trigger] split(h@, '.')[j]),
        decreases 4 - k,
    {
        assert(texts(fields@)[k as int] == fields@[k as int]@);
        if !is_octet(fields[k].as_str()) {
            return false;
        }
        k = k + 1;
    }
    true
}

/// Whether `f` is an IPv6 group.
fn is_group(f: &str) -> (r: bool)
    ensures
        r == valid_group(f@),
{
    let n = f.unicode_len();
    if n < 1 || n > 4 {
        return false;
    }
    let mut k: usize = 0;
    while k < n
        invariant
            n == f@.len(),
            k <= n,
            forall|j: int| 0 <= j < k ==> is_hex(#[trigger] f@[j]),
        decreases n - k,
    {
        let c = f.get_char(k);
        if !(('0' <= c && c <= '9') || ('a' <= c && c <= 'f') || ('A' <= c && c <= 'F')) {
            return false;
        }
        k = k + 1;
    }
    true
}

/// Whether `x` is empty or groups separated by single colons, and how many
/// groups it holds.
fn groups(x: &str) -> (r: (bool, usize))
    ensures
        r.0 == groups_ok(x@),
        r.0 ==> r.1 == group_count(x@),
{
    let n = x.unicode_len();
    if n == 0 {
        return (true, 0);
    }
    let fields = split_text(x, ':');
    let mut k: usize = 0;
    while k < fields.len()
        invariant
            texts(fields@) == split(x@, ':'),
            x@.len() > 0,
            k <= fields.len(),
            forall|j: int| 0 <= j < k ==> valid_group(#[trigger] split(x@, ':')[j]),
        decreases fields.len() - k,
    {
        assert(texts(fields@)[k as int] == fields@[k as int]@);
        assert(texts(fields@).len() == fields@.len());
        if !is_group(fields[k].as_str()) {
            assert(!valid_group(split(x@, ':')[k as int]));
            return (false, 0);
        }
        k = k + 1;
    }
    (true, fields.len())
}

/// Whether `x` is empty or groups of which the last may be an IPv4 literal,
/// and how many 16-bit groups it stands for (nine standing for more).
fn fields(x: &str) -> (r: (bool, usize))
    ensures
        r.0 == fields_ok(x@),
        r.0 ==> (r.1 == units(x@) || (r.1 == 9 && units(x@) > 9)),
{
    let (ok, count) = groups(x);
    if ok {
        return (true, count);
    }
    let n = x.unicode_len();
    if n == 0 {
        return (false, 0);
    }
    let parts = split_text(x, ':');
    assert(texts(parts@).len() == parts@.len());
    proof {
        lemma_split_nonempty(x@, ':');
    }
    let last = parts.len() - 1;
    assert(texts(parts@)[last as int] == parts@[last as int]@);
    if !is_ipv4(parts[last].as_str()) {
        return (false, 0);
    }
    let mut k: usize = 0;
    while k < last
        invariant
            texts(parts@) == split(x@, ':'),
            texts(parts@).len() == parts@.len(),
            last == parts.len() - 1,
            k <= last,
            forall|j: int| 0 <= j < k ==> valid_group(#[trigger] split(x@, ':')[j]),
        decreases last - k,
    {
        assert(texts(parts@)[k as int] == parts@[k as int]@);
        if !is_group(parts[k].as_str()) {
            assert(!valid_group(split(x@, ':')[k as int]));
            return (false, 0);
        }
        k = k + 1;
    }
    assert(ipv4_tailed(x@));
    if parts.len() > 8 {
        return (true, 9);
    }
    (true, parts.len() + 1)
}

/// Whether `a` is an IPv6 literal without its brackets.
fn is_ipv6(a: &str) -> (r: bool)
    ensures
        r == valid_ipv6(a@),
{
    let n = a.unicode_len();
    let (ok, count) = fields(a);
    if n > 0 && ok && count == 8 {
        return true;
    }
    let mut i: usize = 0;
    while i < n && n - i >= 2
        invariant
            n == a@.len(),
            i <= n,
            !(n > 0 && fields_ok(a@) && units(a@) == 8),
            forall|j: int| 0 <= j < i ==> !#[trigger] compressed_at(a@, j),
        decreases n - i,
    {
        if a.get_char(i) == ':' && a.get_char(i + 1) == ':' {
            let (ok_head, head) = groups(a.substring_char(0, i));
            let (ok_tail, tail) = fields(a.substring_char(i + 2, n));
            if ok_head && ok_tail && head <= 7 && tail <= 7 - head {
                assert(compressed_at(a@, i as int));
                return true;
            }
        }
        i = i + 1;
    }
    assert forall|j: int| !compressed_at(a@, j) by {
        if 0 <= j < i {
            assert(!compressed_at(a@, j));
        }
    }
    false
}

/// Whether `h` is a network host.
pub fn is_host(h: &str) -> (r: bool)
    ensures
        r == valid_host(h@),
{
    if is_ipv4(h) {
        return true;
    }
    let n = h.unicode_len();
    if n < 2 || h.get_char(0) != '[' || h.get_char(n - 1) != ']' {
        return false;
    }
    is_ipv6(h.substring_char(1, n - 1))
}

} // verus!
