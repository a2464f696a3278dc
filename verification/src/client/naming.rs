//! Topic names as a client publishes them.

use vstd::prelude::*;

use crate::text::{chars_of, push_char};

verus! {

/// The text without its `$` characters.
pub open spec fn without_dollars(s: Seq<char>) -> Seq<char> {
    s.filter(|c: char| c != '$')
}

/// The text with each `//` removed, scanning from the left without overlap.
pub open spec fn without_double_slashes(s: Seq<char>) -> Seq<char>
    decreases s.len(),
{
    if s.len() == 0 {
        s
    } else if s.len() >= 2 && s[0] == '/' && s[1] == '/' {
        without_double_slashes(s.subrange(2, s.len() as int))
    } else {
        seq![s[0]] + without_double_slashes(s.subrange(1, s.len() as int))
    }
}

/// The text with each `:` turned into `/`.
pub open spec fn colons_as_slashes(s: Seq<char>) -> Seq<char> {
    s.map_values(|c: char| if c == ':' { '/' } else { c })
}

/// A topic name made fit for publishing: `$` removed, then `//` removed,
/// then `:` turned into `/`.
pub open spec fn cleaned(s: Seq<char>) -> Seq<char> {
    colons_as_slashes(without_double_slashes(without_dollars(s)))
}

/// The name `name` made fit for publishing (see `cleaned`).
pub fn clean_name(name: &str) -> (clean: String)
    ensures
        clean@ == cleaned(name@),
{
    let chars = chars_of(name);
    let mut kept: Vec<char> = Vec::new();
    let mut i: usize = 0;
    while i < chars.len()
        invariant
            i <= chars@.len(),
            chars@ == name@,
            kept@ == without_dollars(name@.subrange(0, i as int)),
        decreases chars@.len() - i,
    {
        proof {
            reveal_with_fuel(Seq::filter, 1);
            assert(name@.subrange(0, i + 1).drop_last() =~= name@.subrange(0, i as int));
        }
        if chars[i] != '$' {
            kept.push(chars[i]);
        }
        i = i + 1;
    }
    assert(name@.subrange(0, name@.len() as int) == name@);
    let ghost d = kept@;
    let mut joined: Vec<char> = Vec::new();
    let mut j: usize = 0;
    assert(d.subrange(0, d.len() as int) == d);
    while j < kept.len()
        invariant
            j <= kept@.len(),
            kept@ == d,
            joined@ + without_double_slashes(d.subrange(j as int, d.len() as int)) == without_double_slashes(d),
        decreases kept@.len() - j,
    {
        let ghost rest = d.subrange(j as int, d.len() as int);
        if j + 1 < kept.len() && kept[j] == '/' && kept[j + 1] == '/' {
            proof {
                assert(rest.subrange(2, rest.len() as int) =~= d.subrange(j + 2, d.len() as int));
            }
            j = j + 2;
        } else {
            proof {
                assert(rest.subrange(1, rest.len() as int) =~= d.subrange(j + 1, d.len() as int));
                assert(joined@.push(kept@[j as int]) + without_double_slashes(d.subrange(j + 1, d.len() as int)) =~= joined@ + (
                seq![rest[0]] + without_double_slashes(rest.subrange(1, rest.len() as int))));
            }
            joined.push(kept[j]);
            j = j + 1;
        }
    }
    assert(d.subrange(j as int, d.len() as int) =~= Seq::<char>::empty());
    assert(joined@ =~= without_double_slashes(d));
    let mut clean = String::new();
    let mut k: usize = 0;
    while k < joined.len()
        invariant
            k <= joined@.len(),
            clean@ == colons_as_slashes(joined@.subrange(0, k as int)),
        decreases joined@.len() - k,
    {
        let c = joined[k];
        push_char(&mut clean, if c == ':' { '/' } else { c });
        proof {
            assert(colons_as_slashes(joined@.subrange(0, k + 1)) =~= colons_as_slashes(joined@.subrange(0, k as int)).push(
                if c == ':' { '/' } else { c },
            ));
        }
        k = k + 1;
    }
    assert(joined@.subrange(0, joined@.len() as int) == joined@);
    clean
}

} // verus!
