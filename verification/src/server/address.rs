//! Reading a client identity back from its text `name@a.b.c.d:port`.

use vstd::prelude::*;

use crate::server::util::ClientIdentity;
use crate::text::{chars_of, decimal, digit_char, push_char, to_decimal};

verus! {

/// The text before the first `c`, or all of it.
pub open spec fn before_first(s: Seq<char>, c: char) -> Seq<char>
    decreases s.len(),
{
    if s.len() == 0 {
        s
    } else if s[0] == c {
        Seq::empty()
    } else {
        seq![s[0]] + before_first(s.drop_first(), c)
    }
}

/// The text after the first `c`, if `c` occurs.
pub open spec fn after_first(s: Seq<char>, c: char) -> Option<Seq<char>>
    decreases s.len(),
{
    if s.len() == 0 {
        None
    } else if s[0] == c {
        Some(s.drop_first())
    } else {
        after_first(s.drop_first(), c)
    }
}

/// The pieces of a text between the occurrences of `c`.
pub open spec fn pieces(s: Seq<char>, c: char) -> Seq<Seq<char>>
    decreases s.len(),
{
    match after_first(s, c) {
        None => seq![s],
        Some(rest) => {
            if rest.len() < s.len() {
                seq![before_first(s, c)] + pieces(rest, c)
            } else {
                seq![s]
            }
        },
    }
}

/// The value of a decimal digit.
pub open spec fn digit_value(c: char) -> nat {
    ((c as u32) - ('0' as u32)) as nat
}

/// The value of a string of decimal digits.
pub open spec fn digits_value(s: Seq<char>) -> nat
    decreases s.len(),
{
    if s.len() == 0 {
        0
    } else {
        digits_value(s.drop_last()) * 10 + digit_value(s.last())
    }
}

/// Every character is a decimal digit.
pub open spec fn all_digits(s: Seq<char>) -> bool {
    forall|i: int| 0 <= i < s.len() ==> '0' <= #[trigger] s[i] && s[i] <= '9'
}

/// An unsigned number at most `max` written in decimal, with an optional
/// leading `+`, as Rust reads unsigned integers.
pub open spec fn parse_unsigned(s: Seq<char>, max: nat) -> Option<nat> {
    let d = if s.len() > 0 && s[0] == '+' {
        s.drop_first()
    } else {
        s
    };
    if d.len() > 0 && all_digits(d) && digits_value(d) <= max {
        Some(digits_value(d))
    } else {
        None
    }
}

/// Every piece reads as a byte.
pub open spec fn all_bytes(ps: Seq<Seq<char>>) -> bool {
    forall|i: int| 0 <= i < ps.len() ==> #[trigger] parse_unsigned(ps[i], 255) is Some
}

/// The address of four bytes and a port: `a.b.c.d:port`.
pub open spec fn address_text(o: Seq<nat>, port: nat) -> Seq<char> {
    decimal(o[0]) + "."@ + decimal(o[1]) + "."@ + decimal(o[2]) + "."@ + decimal(o[3]) + ":"@ + decimal(port)
}

/// The address and name of an identity's text `name@a.b.c.d:port`: the name
/// is the text before the first `@`; the address, up to the next `@`, is
/// four bytes separated by `.` before its first `:`, and a port after it, up
/// to the next `:`. `None` if a part is missing or does not read.
pub open spec fn parsed_identity(display: Seq<char>) -> Option<(Seq<char>, Seq<char>)> {
    let name = before_first(display, '@');
    match after_first(display, '@') {
        None => None,
        Some(rest) => {
            let addr = before_first(rest, '@');
            let ip = pieces(before_first(addr, ':'), '.');
            match after_first(addr, ':') {
                None => None,
                Some(p) => {
                    let port = parse_unsigned(before_first(p, ':'), 65535);
                    if !all_bytes(ip) || port is None || ip.len() != 4 {
                        None
                    } else {
                        Some((address_text(ip.map_values(|x: Seq<char>| parse_unsigned(x, 255)->0), port->0), name))
                    }
                },
            }
        },
    }
}

/// The first index from `lo` below `hi` where `v` holds `c`.
fn first_index(v: &Vec<char>, lo: usize, hi: usize, c: char) -> (r: Option<usize>)
    requires
        lo <= hi <= v@.len(),
    ensures
        match r {
            Some(i) => lo <= i < hi && v@[i as int] == c && forall|j: int| lo <= j < i ==> v@[j] != c,
            None => forall|j: int| lo <= j < hi ==> v@[j] != c,
        },
{
    let mut i = lo;
    while i < hi
        invariant
            lo <= i <= hi <= v@.len(),
            forall|j: int| lo <= j < i ==> v@[j] != c,
        decreases hi - i,
    {
        if v[i] == c {
            return Some(i);
        }
        i = i + 1;
    }
    None
}

/// The text of `v` from `lo` below `hi`.
fn text_between(v: &Vec<char>, lo: usize, hi: usize) -> (t: String)
    requires
        lo <= hi <= v@.len(),
    ensures
        t@ == v@.subrange(lo as int, hi as int),
{
    let mut t = String::new();
    let mut i = lo;
    while i < hi
        invariant
            lo <= i <= hi <= v@.len(),
            t@ == v@.subrange(lo as int, i as int),
        decreases hi - i,
    {
        push_char(&mut t, v[i]);
        proof {
            assert(v@.subrange(lo as int, i + 1) =~= v@.subrange(lo as int, i as int).push(v@[i as int]));
        }
        i = i + 1;
    }
    t
}

/// Where `c` first occurs decides what comes before and after it.
proof fn lemma_split_at(s: Seq<char>, c: char, i: int)
    requires
        0 <= i <= s.len(),
        forall|j: int| 0 <= j < i ==> s[j] != c,
        i < s.len() ==> s[i] == c,
    ensures
        before_first(s, c) == s.subrange(0, i),
        i < s.len() ==> after_first(s, c) == Some(s.subrange(i + 1, s.len() as int)),
        i == s.len() ==> after_first(s, c) is None,
    decreases i,
{
    if i > 0 {
        let t = s.drop_first();
        lemma_split_at(t, c, i - 1);
        assert(s.subrange(0, i) =~= seq![s[0]] + t.subrange(0, i - 1));
        if i < s.len() {
            assert(t.subrange(i, t.len() as int) =~= s.subrange(i + 1, s.len() as int));
        }
    } else {
        assert(s.subrange(0, 0) =~= Seq::<char>::empty());
        if s.len() > 0 {
            assert(s.drop_first() =~= s.subrange(1, s.len() as int));
        }
    }
}

/// Reading a number: the value so far, capped one above the largest allowed.
proof fn lemma_digits_step(s: Seq<char>, k: int, acc: nat, max: nat)
    requires
        0 <= k < s.len(),
        all_digits(s.subrange(0, k + 1)),
        acc == (if digits_value(s.subrange(0, k)) <= max { digits_value(s.subrange(0, k)) } else { (max + 1) as nat }),
    ensures
        ({
            let next = acc * 10 + digit_value(s[k]);
            let capped = if next <= max { next } else { max + 1 };
            capped == (if digits_value(s.subrange(0, k + 1)) <= max { digits_value(s.subrange(0, k + 1)) } else { max + 1 })
        }),
{
    assert(s.subrange(0, k + 1).drop_last() =~= s.subrange(0, k));
    assert(s.subrange(0, k + 1).last() == s[k]);
    let v = digits_value(s.subrange(0, k));
    let d = digit_value(s[k]);
    assert(digits_value(s.subrange(0, k + 1)) == v * 10 + d);
    if v > max {
        assert(v * 10 + d > max) by (nonlinear_arith)
            requires
                v > max,
        ;
        assert(acc * 10 + d > max) by (nonlinear_arith)
            requires
                acc == max + 1,
        ;
    }
}

/// Reads the unsigned number at most `max` in `v` from `lo` below `hi`.
fn parse_unsigned_at(v: &Vec<char>, lo: usize, hi: usize, max: u32) -> (r: Option<u32>)
    requires
        lo <= hi <= v@.len(),
        max <= 65535,
    ensures
        match parse_unsigned(v@.subrange(lo as int, hi as int), max as nat) {
            Some(n) => r == Some(n as u32),
            None => r is None,
        },
{
    let ghost s = v@.subrange(lo as int, hi as int);
    let mut start = lo;
    if lo < hi && v[lo] == '+' {
        start = lo + 1;
    }
    let ghost d = v@.subrange(start as int, hi as int);
    proof {
        if lo < hi && v@[lo as int] == '+' {
            assert(s.drop_first() =~= d);
        } else {
            assert(s =~= d);
        }
    }
    if start == hi {
        return None;
    }
    let mut acc: u32 = 0;
    let mut i = start;
    proof {
        assert(d.subrange(0, 0) =~= Seq::<char>::empty());
    }
    while i < hi
        invariant
            start <= i <= hi <= v@.len(),
            d == v@.subrange(start as int, hi as int),
            s == v@.subrange(lo as int, hi as int),
            d == (if s.len() > 0 && s[0] == '+' { s.drop_first() } else { s }),
            max <= 65535,
            all_digits(d.subrange(0, i - start)),
            acc == (if digits_value(d.subrange(0, i - start)) <= max { digits_value(d.subrange(0, i - start)) as int } else { max + 1 }),
        decreases hi - i,
    {
        let c = v[i];
        if c < '0' || c > '9' {
            proof {
                assert(d[i - start] == c);
                assert(!all_digits(d));
            }
            return None;
        }
        proof {
            let k = i - start;
            assert(d[k] == c);
            assert(all_digits(d.subrange(0, k + 1))) by {
                assert forall|j: int| 0 <= j < k + 1 implies '0' <= #[trigger] d.subrange(0, k + 1)[j] && d.subrange(0, k + 1)[j] <= '9' by {
                    if j < k {
                        assert(d.subrange(0, k + 1)[j] == d.subrange(0, k)[j]);
                    }
                }
            }
            lemma_digits_step(d, k, acc as nat, max as nat);
        }
        let dv = (c as u32) - ('0' as u32);
        let next = acc * 10 + dv;
        acc = if next <= max { next } else { max + 1 };
        i = i + 1;
    }
    proof {
        assert(d.subrange(0, hi - start) =~= d);
    }
    if acc <= max {
        Some(acc)
    } else {
        None
    }
}

/// Reads the bytes separated by `.` in `v` from `lo` below `hi`: `None` if
/// a piece does not read as a byte.
fn parse_octets(v: &Vec<char>, lo: usize, hi: usize) -> (r: Option<Vec<u32>>)
    requires
        lo <= hi <= v@.len(),
    ensures
        ({
            let ps = pieces(v@.subrange(lo as int, hi as int), '.');
            match r {
                Some(o) => all_bytes(ps) && o@.len() == ps.len() && forall|k: int| 0 <= k < ps.len() ==> #[trigger] o@[k]
                    == parse_unsigned(ps[k], 255)->0,
                None => !all_bytes(ps),
            }
        }),
{
    let ghost s = v@;
    let ghost whole = s.subrange(lo as int, hi as int);
    let mut octets: Vec<u32> = Vec::new();
    let mut start = lo;
    let ghost mut done: Seq<Seq<char>> = Seq::empty();
    loop
        invariant_except_break
            pieces(whole, '.') == done + pieces(s.subrange(start as int, hi as int), '.'),
        invariant
            lo <= start <= hi <= v@.len(),
            s == v@,
            whole == s.subrange(lo as int, hi as int),
            all_bytes(done),
            octets@.len() == done.len(),
            forall|k: int| 0 <= k < done.len() ==> #[trigger] octets@[k] == parse_unsigned(done[k], 255)->0,
        ensures
            pieces(whole, '.') == done,
        decreases hi - start,
    {
        let ghost piece_text = s.subrange(start as int, hi as int);
        let dot = first_index(v, start, hi, '.');
        let end = match dot {
            Some(i) => i,
            None => hi,
        };
        proof {
            lemma_split_at(piece_text, '.', end - start);
            assert(piece_text.subrange(0, end - start) =~= s.subrange(start as int, end as int));
        }
        let ghost this = s.subrange(start as int, end as int);
        match dot {
            Some(i) => {
                let ghost next = s.subrange(i + 1, hi as int);
                proof {
                    assert(piece_text.subrange(end - start + 1, piece_text.len() as int) =~= next);
                    assert(pieces(piece_text, '.') == seq![this] + pieces(next, '.'));
                }
                match parse_unsigned_at(v, start, end, 255) {
                    Some(b) => {
                        octets.push(b);
                    },
                    None => {
                        proof {
                            let ps = pieces(whole, '.');
                            assert((done + (seq![this] + pieces(next, '.')))[done.len() as int] == this);
                            assert(ps[done.len() as int] == this);
                        }
                        return None;
                    },
                }
                proof {
                    assert(done.push(this) + pieces(next, '.') =~= done + (seq![this] + pieces(next, '.')));
                    done = done.push(this);
                }
                start = i + 1;
            },
            None => {
                proof {
                    assert(pieces(piece_text, '.') == seq![piece_text]);
                    assert(piece_text =~= this);
                }
                match parse_unsigned_at(v, start, end, 255) {
                    Some(b) => {
                        octets.push(b);
                    },
                    None => {
                        proof {
                            let ps = pieces(whole, '.');
                            assert((done + seq![this])[done.len() as int] == this);
                            assert(ps[done.len() as int] == this);
                        }
                        return None;
                    },
                }
                proof {
                    assert(done + seq![this] =~= done.push(this));
                    done = done.push(this);
                }
                break;
            },
        }
    }
    Some(octets)
}

/// A digit's character reads back as the digit.
proof fn lemma_digit_value(d: nat)
    requires
        d < 10,
    ensures
        digit_value(digit_char(d)) == d,
        '0' <= digit_char(d) && digit_char(d) <= '9',
{
}

/// A decimal rendering is a nonempty string of digits that reads back as the
/// number.
proof fn lemma_decimal_digits(n: nat)
    ensures
        decimal(n).len() > 0,
        all_digits(decimal(n)),
        digits_value(decimal(n)) == n,
    decreases n,
{
    lemma_digit_value(n % 10);
    if n < 10 {
        assert(decimal(n).drop_last() =~= Seq::<char>::empty());
        assert(decimal(n).last() == digit_char(n));
        assert(digits_value(decimal(n)) == digits_value(decimal(n).drop_last()) * 10 + digit_value(decimal(n).last()));
    } else {
        lemma_decimal_digits(n / 10);
        let s = decimal(n);
        assert(s.drop_last() == decimal(n / 10));
        assert(s.last() == digit_char(n % 10));
        assert(digits_value(s) == digits_value(decimal(n / 10)) * 10 + digit_value(digit_char(n % 10)));
        assert(n == (n / 10) * 10 + n % 10) by (nonlinear_arith);
        assert forall|i: int| 0 <= i < s.len() implies '0' <= #[trigger] s[i] && s[i] <= '9' by {
            if i < s.len() - 1 {
                assert(s[i] == decimal(n / 10)[i]);
            }
        }
    }
}

/// Digits are none of the separators.
proof fn lemma_decimal_no(n: nat, c: char)
    requires
        !('0' <= c && c <= '9'),
    ensures
        !decimal(n).contains(c),
{
    lemma_decimal_digits(n);
    if decimal(n).contains(c) {
        let i = choose|i: int| 0 <= i < decimal(n).len() && decimal(n)[i] == c;
        assert('0' <= decimal(n)[i] && decimal(n)[i] <= '9');
    }
}

/// A number within `max` reads back from its decimal rendering.
proof fn lemma_parse_decimal(n: nat, max: nat)
    requires
        n <= max,
    ensures
        parse_unsigned(decimal(n), max) == Some(n),
{
    lemma_decimal_digits(n);
    assert(decimal(n)[0] != '+');
}

/// Splitting `a + [c] + b` at its first `c`, when `a` has none.
proof fn lemma_split_joined(a: Seq<char>, c: char, b: Seq<char>)
    requires
        !a.contains(c),
    ensures
        before_first(a + seq![c] + b, c) == a,
        after_first(a + seq![c] + b, c) == Some(b),
{
    let s = a + seq![c] + b;
    assert forall|j: int| 0 <= j < a.len() implies s[j] != c by {
        assert(s[j] == a[j]);
    }
    lemma_split_at(s, c, a.len() as int);
    assert(s.subrange(0, a.len() as int) =~= a);
    assert(s.subrange(a.len() as int + 1, s.len() as int) =~= b);
}

/// A text without `c` is all before its first `c`, and has nothing after.
proof fn lemma_split_none(a: Seq<char>, c: char)
    requires
        !a.contains(c),
    ensures
        before_first(a, c) == a,
        after_first(a, c) is None,
{
    assert forall|j: int| 0 <= j < a.len() implies a[j] != c by {}
    lemma_split_at(a, c, a.len() as int);
    assert(a.subrange(0, a.len() as int) =~= a);
}

/// The dotted rendering of four bytes.
pub open spec fn dotted(o: Seq<nat>) -> Seq<char> {
    decimal(o[0]) + "."@ + decimal(o[1]) + "."@ + decimal(o[2]) + "."@ + decimal(o[3])
}

/// The text of an identity: its name, `@`, and its address.
pub open spec fn identity_text(name: Seq<char>, addr: Seq<char>) -> Seq<char> {
    name + "@"@ + addr
}

/// An identity's text reads back as the identity: for a name without `@` and
/// an address of four bytes and a port, `parsed_identity` of the text
/// `name@a.b.c.d:port` gives the address and the name.
pub proof fn law_identity_text_reads_back(name: Seq<char>, o: Seq<nat>, port: nat)
    requires
        !name.contains('@'),
        o.len() == 4,
        forall|i: int| 0 <= i < 4 ==> #[trigger] o[i] <= 255,
        port <= 65535,
    ensures
        parsed_identity(identity_text(name, address_text(o, port))) == Some((address_text(o, port), name)),
{
    reveal_strlit("@");
    reveal_strlit(".");
    reveal_strlit(":");
    let addr = address_text(o, port);
    let ip = dotted(o);
    let dp = decimal(port);
    assert(addr =~= ip + seq![':'] + dp);
    lemma_decimal_no(o[0], '.');
    lemma_decimal_no(o[1], '.');
    lemma_decimal_no(o[2], '.');
    lemma_decimal_no(o[3], '.');
    lemma_decimal_no(o[0], ':');
    lemma_decimal_no(o[1], ':');
    lemma_decimal_no(o[2], ':');
    lemma_decimal_no(o[3], ':');
    lemma_decimal_no(port, ':');
    lemma_decimal_no(o[0], '@');
    lemma_decimal_no(o[1], '@');
    lemma_decimal_no(o[2], '@');
    lemma_decimal_no(o[3], '@');
    lemma_decimal_no(port, '@');
    // The text splits at its first `@`; the address has none.
    assert(identity_text(name, addr) =~= name + seq!['@'] + addr);
    lemma_split_joined(name, '@', addr);
    assert(!addr.contains('@')) by {
        if addr.contains('@') {
            let i = choose|i: int| 0 <= i < addr.len() && addr[i] == '@';
            let l0 = decimal(o[0]).len() as int;
            let l1 = decimal(o[1]).len() as int;
            let l2 = decimal(o[2]).len() as int;
            let l3 = decimal(o[3]).len() as int;
            if i < l0 {
                assert(decimal(o[0])[i] == '@');
            } else if i == l0 {
            } else if i < l0 + 1 + l1 {
                assert(decimal(o[1])[i - l0 - 1] == '@');
            } else if i == l0 + 1 + l1 {
            } else if i < l0 + l1 + 2 + l2 {
                assert(decimal(o[2])[i - l0 - l1 - 2] == '@');
            } else if i == l0 + l1 + 2 + l2 {
            } else if i < l0 + l1 + l2 + 3 + l3 {
                assert(decimal(o[3])[i - l0 - l1 - l2 - 3] == '@');
            } else if i == l0 + l1 + l2 + 3 + l3 {
            } else {
                assert(dp[i - l0 - l1 - l2 - l3 - 4] == '@');
            }
        }
    }
    lemma_split_none(addr, '@');
    // The address splits at its first `:`, after the dotted bytes.
    assert(!ip.contains(':')) by {
        if ip.contains(':') {
            let i = choose|i: int| 0 <= i < ip.len() && ip[i] == ':';
            let l0 = decimal(o[0]).len() as int;
            let l1 = decimal(o[1]).len() as int;
            let l2 = decimal(o[2]).len() as int;
            if i < l0 {
                assert(decimal(o[0])[i] == ':');
            } else if i == l0 {
            } else if i < l0 + 1 + l1 {
                assert(decimal(o[1])[i - l0 - 1] == ':');
            } else if i == l0 + 1 + l1 {
            } else if i < l0 + l1 + 2 + l2 {
                assert(decimal(o[2])[i - l0 - l1 - 2] == ':');
            } else if i == l0 + l1 + 2 + l2 {
            } else {
                assert(decimal(o[3])[i - l0 - l1 - l2 - 3] == ':');
            }
        }
    }
    lemma_split_joined(ip, ':', dp);
    lemma_split_none(dp, ':');
    // The dotted bytes split into their four renderings.
    let d0 = decimal(o[0]);
    let d1 = decimal(o[1]);
    let d2 = decimal(o[2]);
    let d3 = decimal(o[3]);
    let r1 = d1 + seq!['.'] + d2 + seq!['.'] + d3;
    let r2 = d2 + seq!['.'] + d3;
    assert(ip =~= d0 + seq!['.'] + r1);
    assert(r1 =~= d1 + seq!['.'] + r2);
    lemma_split_joined(d0, '.', r1);
    lemma_split_joined(d1, '.', r2);
    lemma_split_joined(d2, '.', d3);
    lemma_split_none(d3, '.');
    assert(pieces(d3, '.') == seq![d3]);
    assert(pieces(r2, '.') =~= seq![d2, d3]);
    assert(pieces(r1, '.') =~= seq![d1, d2, d3]);
    assert(pieces(ip, '.') =~= seq![d0, d1, d2, d3]);
    lemma_parse_decimal(o[0], 255);
    lemma_parse_decimal(o[1], 255);
    lemma_parse_decimal(o[2], 255);
    lemma_parse_decimal(o[3], 255);
    lemma_parse_decimal(port, 65535);
    let ps = pieces(ip, '.');
    assert(all_bytes(ps));
    let vals = ps.map_values(|x: Seq<char>| parse_unsigned(x, 255)->0);
    assert(vals =~= o);
}

impl ClientIdentity {
    /// Reads an identity back from its text `name@a.b.c.d:port` (see
    /// `parsed_identity`); the address is written back in its usual form.
    #[verifier::spinoff_prover]
    #[verifier::rlimit(40)]
    pub fn from_display(display: String) -> (r: Option<Self>)
        ensures
            match parsed_identity(display@) {
                None => r is None,
                Some((addr, name)) => r matches Some(id) && id.addr@ == addr && id.name@ == name,
            },
    {
        let v = chars_of(display.as_str());
        let n = v.len();
        let ghost s = v@;
        let at = first_index(&v, 0, n, '@');
        proof {
            assert(s.subrange(0, n as int) =~= s);
        }
        let at = match at {
            Some(i) => {
                proof {
                    lemma_split_at(s, '@', i as int);
                }
                i
            },
            None => {
                proof {
                    lemma_split_at(s, '@', n as int);
                }
                return None;
            },
        };
        let name_end = at;
        let rest_lo = at + 1;
        let ghost rest = s.subrange(rest_lo as int, n as int);
        let at2 = first_index(&v, rest_lo, n, '@');
        let addr_hi = match at2 {
            Some(i) => i,
            None => n,
        };
        proof {
            lemma_split_at(rest, '@', addr_hi - rest_lo);
            assert(rest.subrange(0, addr_hi - rest_lo) =~= s.subrange(rest_lo as int, addr_hi as int));
        }
        let ghost addr = s.subrange(rest_lo as int, addr_hi as int);
        let colon = first_index(&v, rest_lo, addr_hi, ':');
        let colon = match colon {
            Some(i) => {
                proof {
                    lemma_split_at(addr, ':', i - rest_lo);
                }
                i
            },
            None => {
                proof {
                    lemma_split_at(addr, ':', addr_hi - rest_lo);
                }
                return None;
            },
        };
        let ghost ip_text = s.subrange(rest_lo as int, colon as int);
        let ghost port_rest = s.subrange(colon + 1, addr_hi as int);
        proof {
            assert(addr.subrange(0, colon - rest_lo) =~= ip_text);
            assert(addr.subrange(colon - rest_lo + 1, addr.len() as int) =~= port_rest);
        }
        let colon2 = first_index(&v, colon + 1, addr_hi, ':');
        let port_hi = match colon2 {
            Some(i) => i,
            None => addr_hi,
        };
        proof {
            lemma_split_at(port_rest, ':', port_hi - (colon + 1));
            assert(port_rest.subrange(0, port_hi - (colon + 1)) =~= s.subrange(colon + 1, port_hi as int));
        }
        let octets = match parse_octets(&v, rest_lo, colon) {
            Some(o) => o,
            None => {
                return None;
            },
        };
        let ghost ps = pieces(ip_text, '.');
        if octets.len() != 4 {
            return None;
        }
        let port = match parse_unsigned_at(&v, colon + 1, port_hi, 65535) {
            Some(p) => p,
            None => {
                return None;
            },
        };
        let mut addr_text = to_decimal(octets[0] as u64);
        addr_text = addr_text.concat(".");
        addr_text = addr_text.concat(to_decimal(octets[1] as u64).as_str());
        addr_text = addr_text.concat(".");
        addr_text = addr_text.concat(to_decimal(octets[2] as u64).as_str());
        addr_text = addr_text.concat(".");
        addr_text = addr_text.concat(to_decimal(octets[3] as u64).as_str());
        addr_text = addr_text.concat(":");
        addr_text = addr_text.concat(to_decimal(port as u64).as_str());
        let name = text_between(&v, 0, name_end);
        proof {
            let o = ps.map_values(|x: Seq<char>| parse_unsigned(x, 255)->0);
            assert(o[0] == octets@[0] && o[1] == octets@[1] && o[2] == octets@[2] && o[3] == octets@[3]);
            assert(addr_text@ =~= address_text(o, port as nat));
        }
        Some(ClientIdentity { addr: addr_text, name })
    }
}

} // verus!
