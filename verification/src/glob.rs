//! Shell-style patterns over names: `*` for any run of characters, `?` for exactly one.
use vstd::prelude::*;
use crate::text::chars_of;

verus! {

/// The pattern matches the name.
pub open spec fn matches_glob(pattern: Seq<char>, name: Seq<char>) -> bool
    decreases pattern.len(), name.len(),
{
    if pattern.len() == 0 {
        name.len() == 0
    } else if pattern[0] == '*' {
        matches_glob(pattern.drop_first(), name) || (name.len() > 0 && matches_glob(
            pattern,
            name.drop_first(),
        ))
    } else {
        name.len() > 0 && (pattern[0] == '?' || pattern[0] == name[0]) && matches_glob(
            pattern.drop_first(),
            name.drop_first(),
        )
    }
}

/// A pattern that starts with a star matches what a later part of the name matches.
proof fn a_star_takes_more(pattern: Seq<char>, name: Seq<char>, k: int)
    requires
        pattern.len() > 0,
        pattern[0] == '*',
        0 <= k <= name.len(),
        matches_glob(pattern, name.skip(k)),
    ensures
        matches_glob(pattern, name),
    decreases k,
{
    if k == 0 {
        assert(name.skip(0) =~= name);
    } else {
        assert(name.skip(k) =~= name.drop_first().skip(k - 1));
        a_star_takes_more(pattern, name.drop_first(), k - 1);
    }
}

/// A star gives way to its rest somewhere in the name.
proof fn a_star_ends_somewhere(pattern: Seq<char>, name: Seq<char>) -> (k: int)
    requires
        pattern.len() > 0,
        pattern[0] == '*',
        matches_glob(pattern, name),
    ensures
        0 <= k <= name.len(),
        matches_glob(pattern.drop_first(), name.skip(k)),
    decreases name.len(),
{
    if matches_glob(pattern.drop_first(), name) {
        assert(name.skip(0) =~= name);
        0
    } else {
        let k = a_star_ends_somewhere(pattern, name.drop_first());
        assert(name.drop_first().skip(k) =~= name.skip(k + 1));
        k + 1
    }
}

/// A part of the pattern without a star takes one character of the name each.
proof fn a_plain_part_takes_its_length(pattern: Seq<char>, name: Seq<char>, len: int)
    requires
        0 <= len <= pattern.len(),
        forall|i: int| 0 <= i < len ==> pattern[i] != '*',
        matches_glob(pattern, name),
    ensures
        len <= name.len(),
        matches_glob(pattern.skip(len), name.skip(len)),
    decreases len,
{
    if len == 0 {
        assert(pattern.skip(0) =~= pattern && name.skip(0) =~= name);
    } else {
        let (p, n) = (pattern.drop_first(), name.drop_first());
        assert forall|i: int| 0 <= i < len - 1 implies p[i] != '*' by {
            assert(p[i] == pattern[i + 1]);
        }
        a_plain_part_takes_its_length(p, n, len - 1);
        assert(p.skip(len - 1) =~= pattern.skip(len) && n.skip(len - 1) =~= name.skip(len));
    }
}

/// Only stars match the empty name.
proof fn only_stars_match_nothing(pattern: Seq<char>)
    ensures
        matches_glob(pattern, Seq::empty()) == forall|i: int|
            0 <= i < pattern.len() ==> pattern[i] == '*',
    decreases pattern.len(),
{
    if pattern.len() > 0 {
        let rest = pattern.drop_first();
        only_stars_match_nothing(rest);
        if forall|i: int| 0 <= i < pattern.len() ==> pattern[i] == '*' {
            assert forall|i: int| 0 <= i < rest.len() implies rest[i] == '*' by {
                assert(rest[i] == pattern[i + 1]);
            }
        }
        if pattern[0] == '*' && (forall|i: int| 0 <= i < rest.len() ==> rest[i] == '*') {
            assert forall|i: int| 0 <= i < pattern.len() implies pattern[i] == '*' by {
                assert(i > 0 ==> pattern[i] == rest[i - 1]);
            }
        }
    }
}

/// What is left to try once the last star has taken the name up to `retry`: that it takes more.
spec fn star_may_take_more(p: Seq<char>, n: Seq<char>, star: Option<usize>, retry: int) -> bool {
    match star {
        Some(s) => retry < n.len() && matches_glob(p.skip(s as int), n.skip(retry + 1)),
        None => false,
    }
}

/// If the last star took more, everything behind the part that follows it would start later.
proof fn taking_more_moves_on(
    p: Seq<char>,
    n: Seq<char>,
    s: int,
    pi: int,
    retry: int,
    ni: int,
) -> (later: int)
    requires
        0 <= s < pi <= p.len(),
        p[s] == '*',
        forall|i: int| s < i < pi ==> p[i] != '*',
        0 <= retry <= ni <= n.len(),
        ni - retry == pi - s - 1,
        retry < n.len(),
        matches_glob(p.skip(s), n.skip(retry + 1)),
    ensures
        ni < later <= n.len(),
        matches_glob(p.skip(pi), n.skip(later)),
{
    let (ps, nr) = (p.skip(s), n.skip(retry + 1));
    let k = a_star_ends_somewhere(ps, nr);
    let (rest, tail) = (ps.drop_first(), nr.skip(k));
    let len = pi - s - 1;
    assert(rest =~= p.skip(s + 1));
    assert(tail =~= n.skip(retry + 1 + k));
    assert forall|i: int| 0 <= i < len implies rest[i] != '*' by {
        assert(rest[i] == p[s + 1 + i]);
    }
    a_plain_part_takes_its_length(rest, tail, len);
    assert(rest.skip(len) =~= p.skip(pi));
    assert(tail.skip(len) =~= n.skip(retry + 1 + k + len));
    retry + 1 + k + len
}

/// Whether a name matches a pattern.
pub fn glob_matches(pattern: &str, name: &str) -> (b: bool)
    ensures
        b == matches_glob(pattern@, name@),
{
    let p: Vec<char> = chars_of(pattern);
    let n: Vec<char> = chars_of(name);
    let mut pi: usize = 0;
    let mut ni: usize = 0;
    let mut star: Option<usize> = None;
    let mut retry: usize = 0;
    assert(p@.skip(0) =~= pattern@ && n@.skip(0) =~= name@);
    while ni < n.len()
        invariant
            p@ == pattern@,
            n@ == name@,
            pi <= p@.len(),
            ni <= n@.len(),
            retry <= ni,
            star matches Some(s) ==> s < pi && p@[s as int] == '*' && ni - retry == pi - s - 1 && (
            forall|i: int| s < i < pi ==> p@[i] != '*'),
            star is None ==> retry == 0,
            matches_glob(pattern@, name@) == (matches_glob(p@.skip(pi as int), n@.skip(ni as int))
                || star_may_take_more(p@, n@, star, retry as int)),
        decreases
            n@.len() - retry,
            match star {
                Some(s) => p@.len() - s,
                None => p@.len() as int + 1,
            },
            n@.len() - ni,
    {
        let ghost (ps, ns) = (p@.skip(pi as int), n@.skip(ni as int));
        proof {
            assert(ns.drop_first() =~= n@.skip(ni + 1));
            assert(ns[0] == n@[ni as int]);
            if pi < p@.len() {
                assert(ps.drop_first() =~= p@.skip(pi + 1));
                assert(ps[0] == p@[pi as int]);
            }
        }
        if pi < p.len() && p[pi] == '*' {
            proof {
                if star_may_take_more(p@, n@, star, retry as int) {
                    let later = taking_more_moves_on(
                        p@,
                        n@,
                        star->0 as int,
                        pi as int,
                        retry as int,
                        ni as int,
                    );
                    assert(ns.skip(later - ni) =~= n@.skip(later));
                    a_star_takes_more(ps, ns, later - ni);
                }
            }
            star = Some(pi);
            pi = pi + 1;
            retry = ni;
        } else if pi < p.len() && (p[pi] == '?' || p[pi] == n[ni]) {
            pi = pi + 1;
            ni = ni + 1;
        } else {
            match star {
                Some(s) => {
                    proof {
                        let (pst, nst) = (p@.skip(s as int), n@.skip(retry + 1));
                        assert(pst[0] == '*');
                        assert(pst.drop_first() =~= p@.skip(s + 1));
                        if nst.len() > 0 {
                            assert(nst.drop_first() =~= n@.skip(retry + 2));
                        }
                    }
                    pi = s + 1;
                    retry = retry + 1;
                    ni = retry;
                },
                None => {
                    return false;
                },
            }
        }
    }
    proof {
        assert(n@.skip(ni as int) =~= Seq::<char>::empty());
        only_stars_match_nothing(p@.skip(pi as int));
        if star_may_take_more(p@, n@, star, retry as int) {
            let later = taking_more_moves_on(
                p@,
                n@,
                star->0 as int,
                pi as int,
                retry as int,
                ni as int,
            );
        }
    }
    let mut i: usize = pi;
    while i < p.len()
        invariant
            pi <= i <= p@.len(),
            matches_glob(pattern@, name@) == (forall|k: int|
                0 <= k < p@.skip(pi as int).len() ==> p@.skip(pi as int)[k] == '*'),
            forall|k: int| pi <= k < i ==> p@[k] == '*',
        decreases p@.len() - i,
    {
        if p[i] != '*' {
            assert(p@.skip(pi as int)[i - pi] == p@[i as int]);
            return false;
        }
        i = i + 1;
    }
    assert forall|k: int| 0 <= k < p@.skip(pi as int).len() implies p@.skip(pi as int)[k] == '*' by {
        assert(p@.skip(pi as int)[k] == p@[pi + k]);
    }
    true
}

/// A pattern without wildcards matches its own text alone.
pub proof fn a_plain_pattern_matches_itself_alone(pattern: Seq<char>, name: Seq<char>)
    requires
        !pattern.contains('*'),
        !pattern.contains('?'),
    ensures
        matches_glob(pattern, name) == (pattern == name),
    decreases pattern.len(),
{
    if pattern.len() == 0 {
        assert(name.len() == 0 ==> pattern =~= name);
    } else {
        assert(pattern.contains(pattern[0]));
        if name.len() > 0 {
            let (p, n) = (pattern.drop_first(), name.drop_first());
            assert(!p.contains('*') && !p.contains('?')) by {
                assert forall|i: int| 0 <= i < p.len() implies p[i] != '*' && p[i] != '?' by {
                    assert(pattern.contains(pattern[i + 1]));
                }
            }
            a_plain_pattern_matches_itself_alone(p, n);
            if pattern[0] == name[0] && p == n {
                assert(pattern =~= seq![pattern[0]] + p);
                assert(name =~= seq![name[0]] + n);
            }
        }
    }
}

/// A star alone matches every name.
pub proof fn a_star_matches_every_name(name: Seq<char>)
    ensures
        matches_glob(seq!['*'], name),
    decreases name.len(),
{
    let star = seq!['*'];
    if name.len() > 0 {
        a_star_matches_every_name(name.drop_first());
    } else {
        assert(star.drop_first() =~= Seq::<char>::empty());
        assert(matches_glob(star.drop_first(), name));
    }
}

/// A pattern with one part after another matches a name exactly where the name splits so that each
/// part matches its own piece.
pub proof fn parts_match_pieces(one: Seq<char>, other: Seq<char>, name: Seq<char>)
    ensures
        matches_glob(one + other, name) == exists|k: int|
            0 <= k <= name.len() && matches_glob(one, #[trigger] name.take(k)) && matches_glob(
                other,
                name.skip(k),
            ),
    decreases one.len(), name.len(),
{
    let whole = one + other;
    if one.len() == 0 {
        assert(whole =~= other);
        assert(name.take(0) =~= Seq::<char>::empty());
        assert(name.skip(0) =~= name);
    } else {
        let rest = one.drop_first();
        assert(whole.drop_first() =~= rest + other);
        assert(whole[0] == one[0]);
        if one[0] == '*' {
            parts_match_pieces(rest, other, name);
            if name.len() > 0 {
                parts_match_pieces(one, other, name.drop_first());
            }
            if matches_glob(whole, name) {
                if matches_glob(rest + other, name) {
                    let k = choose|k: int|
                        0 <= k <= name.len() && matches_glob(rest, #[trigger] name.take(k))
                            && matches_glob(other, name.skip(k));
                    assert(matches_glob(one, name.take(k)));
                } else {
                    let n = name.drop_first();
                    let k = choose|k: int|
                        0 <= k <= n.len() && matches_glob(one, #[trigger] n.take(k)) && matches_glob(
                            other,
                            n.skip(k),
                        );
                    assert(name.take(k + 1).drop_first() =~= n.take(k));
                    assert(name.skip(k + 1) =~= n.skip(k));
                    assert(matches_glob(one, name.take(k + 1)));
                }
            }
            assert forall|k: int|
                0 <= k <= name.len() && matches_glob(one, #[trigger] name.take(k)) && matches_glob(
                    other,
                    name.skip(k),
                ) implies matches_glob(whole, name) by {
                if matches_glob(rest, name.take(k)) {
                    assert(matches_glob(rest + other, name));
                } else {
                    let n = name.drop_first();
                    assert(name.take(k).drop_first() =~= n.take(k - 1));
                    assert(n.skip(k - 1) =~= name.skip(k));
                    assert(matches_glob(one, n.take(k - 1)));
                }
            }
        } else if name.len() > 0 {
            let n = name.drop_first();
            parts_match_pieces(rest, other, n);
            let first = one[0] == '?' || one[0] == name[0];
            if matches_glob(whole, name) {
                let k = choose|k: int|
                    0 <= k <= n.len() && matches_glob(rest, #[trigger] n.take(k)) && matches_glob(
                        other,
                        n.skip(k),
                    );
                assert(name.take(k + 1).drop_first() =~= n.take(k));
                assert(name.skip(k + 1) =~= n.skip(k));
                assert(matches_glob(one, name.take(k + 1)));
            }
            assert forall|k: int|
                0 <= k <= name.len() && matches_glob(one, #[trigger] name.take(k)) && matches_glob(
                    other,
                    name.skip(k),
                ) implies matches_glob(whole, name) by {
                assert(k > 0);
                assert(name.take(k).drop_first() =~= n.take(k - 1));
                assert(n.skip(k - 1) =~= name.skip(k));
                assert(matches_glob(rest, n.take(k - 1)));
            }
        } else {
            assert(forall|k: int| 0 <= k <= name.len() ==> #[trigger] name.take(k) =~= name);
        }
    }
}

/// A single character of a pattern: a star matches anything, a question mark any one character, and
/// any other character itself alone. No pattern matches no name but the empty one.
pub proof fn single_characters_match(c: char, name: Seq<char>)
    ensures
        matches_glob(Seq::empty(), name) == (name.len() == 0),
        matches_glob(seq!['*'], name),
        matches_glob(seq!['?'], name) == (name.len() == 1),
        c != '*' && c != '?' ==> matches_glob(seq![c], name) == (name == seq![c]),
{
    a_star_matches_every_name(name);
    assert(seq!['?'].drop_first() =~= Seq::<char>::empty());
    assert(seq![c].drop_first() =~= Seq::<char>::empty());
    if name.len() == 1 {
        assert(name =~= seq![name[0]]);
    }
    if name.len() > 0 {
        assert(matches_glob(Seq::<char>::empty(), name.drop_first()) == (name.drop_first().len()
            == 0));
    }
}

} // verus!
