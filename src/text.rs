//! Character-level helpers: finding, splitting and joining text, with the
//! mathematical definitions that the rest of the library states its contracts in.
use vstd::prelude::*;
use vstd::std_specs::iter::IteratorSpec;

verus! {

/// A sequence of strings seen as a sequence of character sequences.
pub open spec fn strings_view(v: Seq<String>) -> Seq<Seq<char>> {
    v.map_values(|s: String| s@)
}

/// `i` is the position of the first `c` in `s`.
pub open spec fn is_first_index(s: Seq<char>, c: char, i: int) -> bool {
    &&& 0 <= i < s.len()
    &&& s[i] == c
    &&& forall|j: int| 0 <= j < i ==> s[j] != c
}

/// The position of the first `c` in `s`, if there is one.
pub open spec fn first_index(s: Seq<char>, c: char) -> Option<int> {
    if exists|i: int| is_first_index(s, c, i) {
        Some(choose|i: int| is_first_index(s, c, i))
    } else {
        None
    }
}

/// The text before and after the first `c` in `s`, if `s` holds a `c`.
pub open spec fn split_once(s: Seq<char>, c: char) -> Option<(Seq<char>, Seq<char>)> {
    match first_index(s, c) {
        Some(i) => Some((s.subrange(0, i), s.subrange(i + 1, s.len() as int))),
        None => None,
    }
}

/// The pieces of `s` between occurrences of `sep`, in order. There is always
/// at least one piece; a piece may be empty.
pub open spec fn split_on(s: Seq<char>, sep: char) -> Seq<Seq<char>>
    decreases s.len(),
{
    if s.len() == 0 {
        seq![Seq::empty()]
    } else {
        let prev = split_on(s.drop_last(), sep);
        if s.last() == sep {
            prev.push(Seq::empty())
        } else {
            prev.update(prev.len() - 1, prev.last().push(s.last()))
        }
    }
}

/// The pieces that are not empty, in order.
pub open spec fn drop_empty(ps: Seq<Seq<char>>) -> Seq<Seq<char>>
    decreases ps.len(),
{
    if ps.len() == 0 {
        ps
    } else {
        let kept = drop_empty(ps.drop_last());
        if ps.last().len() > 0 {
            kept.push(ps.last())
        } else {
            kept
        }
    }
}

/// The non-empty pieces of `s` between occurrences of `sep`.
pub open spec fn segments(s: Seq<char>, sep: char) -> Seq<Seq<char>> {
    drop_empty(split_on(s, sep))
}

/// The pieces joined with `sep` between each two of them.
pub open spec fn join(parts: Seq<Seq<char>>, sep: Seq<char>) -> Seq<char>
    decreases parts.len(),
{
    if parts.len() == 0 {
        Seq::empty()
    } else if parts.len() == 1 {
        parts[0]
    } else {
        join(parts.drop_last(), sep) + sep + parts.last()
    }
}

/// `s` holds the character `c` somewhere.
pub open spec fn has_char(s: Seq<char>, c: char) -> bool {
    exists|i: int| 0 <= i < s.len() && s[i] == c
}

pub proof fn lemma_split_on_nonempty(s: Seq<char>, sep: char)
    ensures
        split_on(s, sep).len() >= 1,
    decreases s.len(),
{
    if s.len() > 0 {
        lemma_split_on_nonempty(s.drop_last(), sep);
    }
}

/// A character that `s` lacks is lacking from every piece of it.
pub proof fn lemma_split_on_lacks(s: Seq<char>, sep: char, c: char)
    requires
        !has_char(s, c),
    ensures
        forall|k: int| 0 <= k < split_on(s, sep).len() ==> !has_char(#[trigger] split_on(s, sep)[k], c),
    decreases s.len(),
{
    if s.len() > 0 {
        let prev = split_on(s.drop_last(), sep);
        assert(!has_char(s.drop_last(), c)) by {
            if has_char(s.drop_last(), c) {
                let i = choose|i: int| 0 <= i < s.drop_last().len() && s.drop_last()[i] == c;
                assert(s[i] == c);
            }
        }
        lemma_split_on_lacks(s.drop_last(), sep, c);
        lemma_split_on_nonempty(s.drop_last(), sep);
        if s.last() != sep {
            let grown = prev.last().push(s.last());
            assert(!has_char(prev[prev.len() - 1], c));
            assert(!has_char(grown, c)) by {
                if has_char(grown, c) {
                    let i = choose|i: int| 0 <= i < grown.len() && grown[i] == c;
                    if i < prev.last().len() {
                        assert(prev.last()[i] == c);
                    } else {
                        assert(s[s.len() - 1] == c);
                    }
                }
            }
        } else {
            assert(!has_char(Seq::<char>::empty(), c));
        }
    }
}

/// The characters of `s`, one by one.
pub fn chars_of(s: &str) -> (r: Vec<char>)
    ensures
        r@ == s@,
{
    let mut it = s.chars();
    let mut r: Vec<char> = Vec::new();
    loop
        invariant
            r@ + it.remaining() == s@,
            it.decrease() is Some,
        ensures
            r@ == s@,
        decreases it.decrease()->0,
    {
        let ghost before = it.remaining();
        match it.next() {
            Some(c) => {
                assert(before =~= seq![c] + it.remaining());
                r.push(c);
                assert(r@ + it.remaining() =~= s@);
            },
            None => {
                assert(it.remaining() =~= Seq::<char>::empty());
                assert(r@ =~= s@);
                break;
            },
        }
    }
    r
}

/// Whether two texts hold the same characters.
pub fn text_eq(a: &str, b: &str) -> (r: bool)
    ensures
        r == (a@ == b@),
{
    let x = chars_of(a);
    let y = chars_of(b);
    if x.len() != y.len() {
        return false;
    }
    let mut i: usize = 0;
    while i < x.len()
        invariant
            x@ == a@,
            y@ == b@,
            x@.len() == y@.len(),
            i <= x@.len(),
            forall|j: int| 0 <= j < i ==> x@[j] == y@[j],
        decreases x@.len() - i,
    {
        if x[i] != y[i] {
            return false;
        }
        i = i + 1;
    }
    assert(x@ =~= y@);
    true
}

/// The text of `s` from character `from` up to, not including, character `to`.
pub fn substring(s: &str, from: usize, to: usize) -> (r: String)
    requires
        from <= to <= s@.len(),
    ensures
        r@ == s@.subrange(from as int, to as int),
{
    s.substring_char(from, to).to_owned()
}

/// The position of the first `c` in `cs` at or after `from`.
pub fn find_from(cs: &Vec<char>, c: char, from: usize) -> (r: Option<usize>)
    requires
        from <= cs@.len(),
    ensures
        match r {
            Some(i) => from <= i < cs@.len() && cs@[i as int] == c && forall|j: int|
                from <= j < i ==> cs@[j] != c,
            None => forall|j: int| from <= j < cs@.len() ==> cs@[j] != c,
        },
{
    let mut i = from;
    while i < cs.len()
        invariant
            from <= i <= cs@.len(),
            forall|j: int| from <= j < i ==> cs@[j] != c,
        decreases cs@.len() - i,
    {
        if cs[i] == c {
            return Some(i);
        }
        i = i + 1;
    }
    None
}

/// The position of the first `c` in `cs`.
pub fn find_char(cs: &Vec<char>, c: char) -> (r: Option<usize>)
    ensures
        match r {
            Some(i) => i < cs@.len() && first_index(cs@, c) == Some(i as int),
            None => first_index(cs@, c) is None,
        },
{
    let r = find_from(cs, c, 0);
    match r {
        Some(i) => {
            assert(is_first_index(cs@, c, i as int));
        },
        None => {},
    }
    r
}

/// The text before and after the first `c` in `s`, if `s` holds a `c`.
pub fn split_once_at(s: &str, c: char) -> (r: Option<(String, String)>)
    ensures
        match r {
            Some((a, b)) => split_once(s@, c) == Some((a@, b@)),
            None => split_once(s@, c) is None,
        },
{
    let cs = chars_of(s);
    let n = cs.len();
    match find_char(&cs, c) {
        Some(i) => {
            let a = substring(s, 0, i);
            let b = substring(s, i + 1, n);
            Some((a, b))
        },
        None => None,
    }
}

/// The pieces of `s` between occurrences of `sep`, empty ones included.
pub fn split_pieces(s: &str, sep: char) -> (r: Vec<String>)
    ensures
        strings_view(r@) == split_on(s@, sep),
{
    let cs = chars_of(s);
    let n = cs.len();
    let mut out: Vec<String> = Vec::new();
    let mut start: usize = 0;
    let mut i: usize = 0;
    assert(s@.subrange(0, 0) =~= Seq::<char>::empty());
    while i < n
        invariant
            n == s@.len(),
            cs@ == s@,
            start <= i <= n,
            strings_view(out@).push(s@.subrange(start as int, i as int)) == split_on(
                s@.subrange(0, i as int),
                sep,
            ),
        decreases n - i,
    {
        let ghost prev = s@.subrange(0, i as int);
        assert(s@.subrange(0, i + 1).drop_last() =~= prev);
        if cs[i] == sep {
            let piece = substring(s, start, i);
            proof {
                assert(strings_view(out@.push(piece)) =~= strings_view(out@).push(piece@));
                assert(s@.subrange(i + 1, i + 1) =~= Seq::<char>::empty());
            }
            out.push(piece);
            start = i + 1;
        } else {
            proof {
                assert(s@.subrange(start as int, i as int).push(s@[i as int]) =~= s@.subrange(
                    start as int,
                    i + 1,
                ));
                assert(strings_view(out@).push(s@.subrange(start as int, i + 1)) =~= split_on(
                    s@.subrange(0, i + 1),
                    sep,
                ));
            }
        }
        i = i + 1;
    }
    let last = substring(s, start, n);
    proof {
        assert(strings_view(out@.push(last)) =~= strings_view(out@).push(last@));
        assert(s@.subrange(0, n as int) =~= s@);
    }
    out.push(last);
    out
}

/// Keeps the pieces that are not empty, in order.
pub fn keep_nonempty(pieces: Vec<String>) -> (r: Vec<String>)
    ensures
        strings_view(r@) == drop_empty(strings_view(pieces@)),
{
    let mut out: Vec<String> = Vec::new();
    let mut k: usize = 0;
    assert(strings_view(pieces@).subrange(0, 0) =~= Seq::<Seq<char>>::empty());
    while k < pieces.len()
        invariant
            k <= pieces@.len(),
            strings_view(out@) == drop_empty(strings_view(pieces@).subrange(0, k as int)),
        decreases pieces@.len() - k,
    {
        assert(strings_view(pieces@).subrange(0, k + 1).drop_last() =~= strings_view(
            pieces@,
        ).subrange(0, k as int));
        let piece = &pieces[k];
        if piece.unicode_len() > 0 {
            let p = piece.clone();
            assert(strings_view(out@.push(p)) =~= strings_view(out@).push(p@));
            out.push(p);
        }
        k = k + 1;
    }
    assert(strings_view(pieces@).subrange(0, pieces@.len() as int) =~= strings_view(pieces@));
    out
}

/// The non-empty pieces of `s` between occurrences of `sep`.
pub fn segments_of(s: &str, sep: char) -> (r: Vec<String>)
    ensures
        strings_view(r@) == segments(s@, sep),
{
    keep_nonempty(split_pieces(s, sep))
}

/// The strings from position `from` on, joined with `sep` between each two of them.
pub fn join_from(parts: &Vec<String>, from: usize, sep: &str) -> (r: String)
    requires
        from <= parts@.len(),
    ensures
        r@ == join(strings_view(parts@).subrange(from as int, parts@.len() as int), sep@),
{
    let ghost all = strings_view(parts@);
    let mut r = String::new();
    let mut i: usize = from;
    assert(all.subrange(from as int, from as int) =~= Seq::<Seq<char>>::empty());
    while i < parts.len()
        invariant
            all == strings_view(parts@),
            from <= i <= parts@.len(),
            r@ == join(all.subrange(from as int, i as int), sep@),
        decreases parts@.len() - i,
    {
        assert(all.subrange(from as int, i + 1).drop_last() =~= all.subrange(from as int, i as int));
        if i > from {
            r.append(sep);
        }
        r.append(parts[i].as_str());
        proof {
            if i == from {
                assert(r@ =~= join(all.subrange(from as int, i + 1), sep@));
            }
        }
        i = i + 1;
    }
    r
}

/// The strings joined with `sep` between each two of them.
pub fn join_with(parts: &Vec<String>, sep: &str) -> (r: String)
    ensures
        r@ == join(strings_view(parts@), sep@),
{
    let r = join_from(parts, 0, sep);
    assert(strings_view(parts@).subrange(0, parts@.len() as int) =~= strings_view(parts@));
    r
}

} // verus!
