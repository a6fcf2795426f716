//! Text as sequences of characters: reading, building and comparing.
use vstd::prelude::*;
use vstd::string::*;

verus! {

/// `String::push`: the character goes at the end.
pub assume_specification[ String::push ](s: &mut String, c: char)
    ensures
        final(s)@ == old(s)@.push(c),
;

/// The characters of `s`, in order.
pub fn chars_of(s: &str) -> (chars: Vec<char>)
    ensures
        chars@ == s@,
{
    let mut chars: Vec<char> = Vec::new();
    for c in it: s.chars()
        invariant
            it.seq() == s@,
            chars@ == s@.take(it.index() as int),
    {
        chars.push(c);
    }
    assert(s@.take(s@.len() as int) == s@);
    chars
}

/// The text of the characters `from..to`.
pub fn string_of(chars: &Vec<char>, from: usize, to: usize) -> (s: String)
    requires
        from <= to <= chars@.len(),
    ensures
        s@ == chars@.subrange(from as int, to as int),
{
    let mut s: String = String::new();
    let mut i: usize = from;
    while i < to
        invariant
            from <= i <= to <= chars@.len(),
            s@ == chars@.subrange(from as int, i as int),
        decreases to - i,
    {
        s.push(chars[i]);
        i = i + 1;
    }
    s
}

/// Whether two texts are the same.
pub fn same_text(a: &str, b: &str) -> (r: bool)
    ensures
        r == (a@ == b@),
{
    let x: Vec<char> = chars_of(a);
    let y: Vec<char> = chars_of(b);
    if x.len() != y.len() {
        return false;
    }
    let mut i: usize = 0;
    while i < x.len()
        invariant
            i <= x@.len() == y@.len(),
            x@ == a@,
            y@ == b@,
            x@.take(i as int) == y@.take(i as int),
        decreases x@.len() - i,
    {
        if x[i] != y[i] {
            return false;
        }
        i = i + 1;
        assert(x@.take(i as int) == x@.take(i - 1).push(x@[i - 1]));
        assert(y@.take(i as int) == y@.take(i - 1).push(y@[i - 1]));
    }
    assert(x@.take(i as int) == x@ && y@.take(i as int) == y@);
    true
}

/// `a` comes before `b` in the order of strings: at the first character that differs, by its
/// code point, and a proper prefix first.
pub open spec fn text_before(a: Seq<char>, b: Seq<char>) -> bool
    decreases a.len(),
{
    if b.len() == 0 {
        false
    } else if a.len() == 0 {
        true
    } else if a[0] == b[0] {
        text_before(a.drop_first(), b.drop_first())
    } else {
        a[0] < b[0]
    }
}

/// Whether `a` comes before `b` in the order of strings.
pub fn comes_before(a: &str, b: &str) -> (r: bool)
    ensures
        r == text_before(a@, b@),
{
    let x: Vec<char> = chars_of(a);
    let y: Vec<char> = chars_of(b);
    let mut i: usize = 0;
    assert(x@.skip(0) == a@ && y@.skip(0) == b@);
    while i < x.len() && i < y.len()
        invariant
            i <= x@.len(),
            i <= y@.len(),
            text_before(a@, b@) == text_before(x@.skip(i as int), y@.skip(i as int)),
        decreases x@.len() - i,
    {
        assert(x@.skip(i as int)[0] == x@[i as int] && y@.skip(i as int)[0] == y@[i as int]);
        if x[i] != y[i] {
            return x[i] < y[i];
        }
        assert(x@.skip(i as int).drop_first() == x@.skip(i + 1));
        assert(y@.skip(i as int).drop_first() == y@.skip(i + 1));
        i = i + 1;
    }
    i < y.len()
}

/// The order of strings is transitive.
pub proof fn text_before_is_transitive(a: Seq<char>, b: Seq<char>, c: Seq<char>)
    requires
        text_before(a, b),
        text_before(b, c),
    ensures
        text_before(a, c),
    decreases a.len(),
{
    if a.len() > 0 && a[0] == b[0] && b[0] == c[0] {
        text_before_is_transitive(a.drop_first(), b.drop_first(), c.drop_first());
    }
}

/// No text comes before itself, and of two different texts exactly one comes before the other.
pub proof fn text_before_is_total(a: Seq<char>, b: Seq<char>)
    ensures
        !text_before(a, a),
        a != b ==> text_before(a, b) != text_before(b, a),
    decreases a.len(),
{
    if a.len() > 0 {
        text_before_is_total(a.drop_first(), if b.len() > 0 { b.drop_first() } else { b });
        if b.len() > 0 && a[0] == b[0] && a.drop_first() == b.drop_first() {
            assert(a =~= seq![a[0]] + a.drop_first());
            assert(b =~= seq![b[0]] + b.drop_first());
        }
    } else {
        assert(b.len() == 0 ==> a =~= b);
    }
}

/// `text` starts with `prefix`.
pub open spec fn starts(text: Seq<char>, prefix: Seq<char>) -> bool {
    prefix.is_prefix_of(text)
}

/// Whether the characters from `from` on start with `prefix`.
pub fn starts_at(chars: &Vec<char>, from: usize, prefix: &str) -> (r: bool)
    requires
        from <= chars@.len(),
    ensures
        r == starts(chars@.skip(from as int), prefix@),
{
    let p: Vec<char> = chars_of(prefix);
    let n: usize = chars.len();
    if n - from < p.len() {
        return false;
    }
    let mut i: usize = 0;
    while i < p.len()
        invariant
            i <= p@.len() <= chars@.len() - from,
            chars@.len() <= usize::MAX,
            p@ == prefix@,
            forall|j: int| 0 <= j < i ==> chars@[from + j] == p@[j],
        decreases p@.len() - i,
    {
        if chars[from + i] != p[i] {
            assert(chars@.skip(from as int)[i as int] != prefix@[i as int]);
            return false;
        }
        i = i + 1;
    }
    assert(prefix@ =~= chars@.skip(from as int).subrange(0, prefix@.len() as int));
    true
}

/// The letter in lower case, where it is one of A to Z.
pub open spec fn lower_char(c: char) -> char {
    if 'A' <= c <= 'Z' {
        (c as u8 + 32) as u8 as char
    } else {
        c
    }
}

/// The letter in upper case, where it is one of a to z.
pub open spec fn upper_char(c: char) -> char {
    if 'a' <= c <= 'z' {
        (c as u8 - 32) as u8 as char
    } else {
        c
    }
}

/// The text with A to Z in lower case.
pub open spec fn lower_ascii(text: Seq<char>) -> Seq<char> {
    text.map_values(|c: char| lower_char(c))
}

/// The text with A to Z in lower case.
pub fn lowered(text: &str) -> (s: String)
    ensures
        s@ == lower_ascii(text@),
{
    let chars: Vec<char> = chars_of(text);
    let mut s: String = String::new();
    let mut i: usize = 0;
    while i < chars.len()
        invariant
            i <= chars@.len(),
            chars@ == text@,
            s@ == lower_ascii(text@.take(i as int)),
        decreases chars@.len() - i,
    {
        let c: char = chars[i];
        let l: char = if 'A' <= c && c <= 'Z' {
            (c as u8 + 32) as char
        } else {
            c
        };
        s.push(l);
        assert(s@ =~= lower_ascii(text@.take(i + 1)));
        i = i + 1;
    }
    assert(text@.take(i as int) =~= text@);
    s
}

/// A relative path under a directory: a slash between, unless the directory is empty or ends with
/// one.
pub open spec fn joined_path(dir: Seq<char>, path: Seq<char>) -> Seq<char> {
    dir + (if dir.len() > 0 && dir.last() != '/' {
        "/"@
    } else {
        ""@
    }) + path
}

/// A relative path under a directory.
pub fn join_path(dir: &str, path: &str) -> (joined: String)
    ensures
        joined@ == joined_path(dir@, path@),
{
    let n: usize = dir.unicode_len();
    let slash: &str = if n > 0 && dir.get_char(n - 1) != '/' {
        "/"
    } else {
        ""
    };
    dir.to_owned().concat(slash).concat(path)
}

/// One text comes before another exactly where they agree up to some place, and there either the
/// first ends and the other goes on, or the first has the smaller character.
pub proof fn texts_are_ordered_at_their_first_difference(a: Seq<char>, b: Seq<char>)
    ensures
        text_before(a, b) == exists|k: int|
            {
                &&& 0 <= k <= a.len()
                &&& k < b.len()
                &&& #[trigger] a.take(k) == b.take(k)
                &&& k == a.len() || a[k] < b[k]
            },
    decreases a.len(),
{
    if b.len() > 0 {
        if a.len() == 0 {
            assert(a.take(0) =~= b.take(0));
        } else {
            let (p, q) = (a.drop_first(), b.drop_first());
            assert(a.take(0) =~= b.take(0));
            texts_are_ordered_at_their_first_difference(p, q);
            if a[0] == b[0] {
                if text_before(p, q) {
                    let k = choose|k: int|
                        {
                            &&& 0 <= k <= p.len()
                            &&& k < q.len()
                            &&& #[trigger] p.take(k) == q.take(k)
                            &&& k == p.len() || p[k] < q[k]
                        };
                    assert(a.take(k + 1) =~= seq![a[0]] + p.take(k));
                    assert(b.take(k + 1) =~= seq![b[0]] + q.take(k));
                    assert(a.take(k + 1) == b.take(k + 1));
                }
                assert forall|k: int|
                    {
                        &&& 0 <= k <= a.len()
                        &&& k < b.len()
                        &&& #[trigger] a.take(k) == b.take(k)
                        &&& k == a.len() || a[k] < b[k]
                    } implies text_before(p, q) by {
                    assert(k > 0);
                    assert(p.take(k - 1) =~= a.take(k).drop_first());
                    assert(q.take(k - 1) =~= b.take(k).drop_first());
                    assert(p.take(k - 1) == q.take(k - 1));
                }
            } else {
                assert forall|k: int|
                    {
                        &&& 0 <= k <= a.len()
                        &&& k < b.len()
                        &&& #[trigger] a.take(k) == b.take(k)
                        &&& k == a.len() || a[k] < b[k]
                    } implies a[0] < b[0] by {
                    if k > 0 {
                        assert(a.take(k)[0] == a[0] && b.take(k)[0] == b[0]);
                    }
                }
            }
        }
    }
}

/// Lower and upper case move the 26 letters by 32 code points and leave every other character.
pub proof fn letters_change_case_alone(c: char)
    ensures
        'A' <= c <= 'Z' ==> lower_char(c) as u32 == c as u32 + 32,
        !('A' <= c <= 'Z') ==> lower_char(c) == c,
        'a' <= c <= 'z' ==> upper_char(c) as u32 == c as u32 - 32,
        !('a' <= c <= 'z') ==> upper_char(c) == c,
{
}

/// A path under a directory is the directory, one slash and the path; the slash is left out where
/// the directory is empty or ends with one.
pub proof fn one_slash_joins_a_path(dir: Seq<char>, path: Seq<char>)
    ensures
        dir.len() == 0 ==> joined_path(dir, path) == path,
        dir.len() > 0 && dir[dir.len() - 1] == '/' ==> joined_path(dir, path) == dir + path,
        dir.len() > 0 && dir[dir.len() - 1] != '/' ==> joined_path(dir, path) == dir + seq!['/']
            + path,
{
    reveal_strlit("/");
    reveal_strlit("");
    assert("/"@ =~= seq!['/']);
    assert(""@ =~= Seq::<char>::empty());
    assert(dir + Seq::<char>::empty() + path =~= dir + path);
    assert(dir.len() == 0 ==> dir + path =~= path);
}

} // verus!
