//! Link-relation headers: entries of the form `<URL>; rel="RELATION"`.
use vstd::prelude::*;

verus! {

/// First index at or after `i` that holds `c`, or the length of `s`.
pub open spec fn first_from(s: Seq<char>, c: char, i: int) -> int
    decreases s.len() - i,
{
    if i >= s.len() {
        s.len() as int
    } else if s[i] == c {
        i
    } else {
        first_from(s, c, i + 1)
    }
}

/// Whether `s` holds the separator `>; rel="` at `a`.
pub open spec fn separator_at(s: Seq<char>, a: int) -> bool {
    a + 8 <= s.len() && s[a] == '>' && s[a + 1] == ';' && s[a + 2] == ' ' && s[a + 3] == 'r'
        && s[a + 4] == 'e' && s[a + 5] == 'l' && s[a + 6] == '=' && s[a + 7] == '"'
}

/// The entry that starts at `p`, if one does: the bounds of its URL, the bounds
/// of its relation, and the index just past it. The URL is the non-empty run up
/// to the first `>`, the relation the non-empty run up to the next `"`.
pub open spec fn entry_at(s: Seq<char>, p: int) -> Option<(int, int, int, int, int)> {
    if 0 <= p < s.len() && s[p] == '<' {
        let a = first_from(s, '>', p + 1);
        if a > p + 1 && separator_at(s, a) {
            let b = first_from(s, '"', a + 8);
            if b > a + 8 && b < s.len() {
                Some((p + 1, a, a + 8, b, b + 1))
            } else {
                None
            }
        } else {
            None
        }
    } else {
        None
    }
}

/// The (relation, URL) pairs of `s` from index `i` on, scanning left to
/// right and resuming after each entry found.
pub open spec fn links_from(s: Seq<char>, i: int) -> Seq<(Seq<char>, Seq<char>)>
    decreases s.len() - i,
{
    if i < 0 || i >= s.len() {
        Seq::empty()
    } else {
        match entry_at(s, i) {
            Some(e) => if e.4 > i {
                seq![(s.subrange(e.2, e.3), s.subrange(e.0, e.1))] + links_from(s, e.4)
            } else {
                Seq::empty()
            },
            None => links_from(s, i + 1),
        }
    }
}

/// All (relation, URL) pairs of a link header.
pub open spec fn links(s: Seq<char>) -> Seq<(Seq<char>, Seq<char>)> {
    links_from(s, 0)
}

pub open spec fn next_rel() -> Seq<char> {
    seq!['n', 'e', 'x', 't']
}

/// The URL of the last `next` relation among `ls`; a later one replaces an
/// earlier one.
pub open spec fn last_next(ls: Seq<(Seq<char>, Seq<char>)>) -> Option<Seq<char>>
    decreases ls.len(),
{
    if ls.len() == 0 {
        None
    } else if ls.last().0 == next_rel() {
        Some(ls.last().1)
    } else {
        last_next(ls.drop_last())
    }
}

/// The next-page URL that a link header names.
pub open spec fn next_link_spec(s: Seq<char>) -> Option<Seq<char>> {
    last_next(links(s))
}

fn find_char(s: &str, n: usize, c: char, i: usize) -> (r: usize)
    requires
        n == s@.len(),
        i <= n,
    ensures
        r == first_from(s@, c, i as int),
{
    let mut j: usize = i;
    while j < n
        invariant
            i <= j <= n,
            n == s@.len(),
            first_from(s@, c, i as int) == first_from(s@, c, j as int),
        decreases n - j,
    {
        if s.get_char(j) == c {
            return j;
        }
        j = j + 1;
    }
    j
}

fn separator_at_exec(s: &str, n: usize, a: usize) -> (r: bool)
    requires
        n == s@.len(),
    ensures
        r == separator_at(s@, a as int),
{
    if a > n || n - a < 8 {
        return false;
    }
    s.get_char(a) == '>' && s.get_char(a + 1) == ';' && s.get_char(a + 2) == ' ' && s.get_char(a + 3)
        == 'r' && s.get_char(a + 4) == 'e' && s.get_char(a + 5) == 'l' && s.get_char(a + 6) == '='
        && s.get_char(a + 7) == '"'
}

fn entry_at_exec(s: &str, n: usize, p: usize) -> (r: Option<(usize, usize, usize, usize, usize)>)
    requires
        n == s@.len(),
        p < n,
    ensures
        match r {
            Some(e) => entry_at(s@, p as int) == Some(
                (e.0 as int, e.1 as int, e.2 as int, e.3 as int, e.4 as int),
            ),
            None => entry_at(s@, p as int).is_none(),
        },
{
    if s.get_char(p) != '<' {
        return None;
    }
    let a = find_char(s, n, '>', p + 1);
    if !(a > p + 1 && separator_at_exec(s, n, a)) {
        return None;
    }
    let b = find_char(s, n, '"', a + 8);
    if b > a + 8 && b < n {
        Some((p + 1, a, a + 8, b, b + 1))
    } else {
        None
    }
}

fn is_next(s: &str, from: usize, to: usize) -> (r: bool)
    requires
        from <= to <= s@.len(),
    ensures
        r == (s@.subrange(from as int, to as int) == next_rel()),
{
    if to - from != 4 {
        proof {
            assert(s@.subrange(from as int, to as int).len() != next_rel().len());
        }
        return false;
    }
    let r = s.get_char(from) == 'n' && s.get_char(from + 1) == 'e' && s.get_char(from + 2) == 'x'
        && s.get_char(from + 3) == 't';
    proof {
        let sub = s@.subrange(from as int, to as int);
        if r {
            assert(sub =~= next_rel());
        } else {
            assert(sub[0] != next_rel()[0] || sub[1] != next_rel()[1] || sub[2] != next_rel()[2]
                || sub[3] != next_rel()[3]);
        }
    }
    r
}

/// Finds the next-page URL in a link header: the URL of its (last) entry
/// whose relation is `next`, if it has one.
pub fn next_link(header: &str) -> (r: Option<String>)
    ensures
        match r {
            Some(u) => next_link_spec(header@) == Some(u@),
            None => next_link_spec(header@).is_none(),
        },
{
    let n = header.unicode_len();
    let ghost s = header@;
    let mut found: Option<String> = None;
    let ghost mut seen: Seq<(Seq<char>, Seq<char>)> = Seq::empty();
    let mut i: usize = 0;
    while i < n
        invariant
            i <= n,
            n == s.len(),
            s == header@,
            links(s) == seen + links_from(s, i as int),
            match found {
                Some(u) => last_next(seen) == Some(u@),
                None => last_next(seen).is_none(),
            },
        decreases n - i,
    {
        match entry_at_exec(header, n, i) {
            Some(e) => {
                let ghost pair = (s.subrange(e.2 as int, e.3 as int), s.subrange(e.0 as int, e.1 as int));
                proof {
                    assert(links_from(s, i as int) == seq![pair] + links_from(s, e.4 as int));
                    assert(seen + links_from(s, i as int) =~= seen.push(pair) + links_from(s, e.4 as int));
                    assert(seen.push(pair).drop_last() =~= seen);
                }
                if is_next(header, e.2, e.3) {
                    found = Some(header.substring_char(e.0, e.1).to_owned());
                }
                proof {
                    seen = seen.push(pair);
                }
                i = e.4;
            },
            None => {
                i = i + 1;
            },
        }
    }
    proof {
        assert(seen + links_from(s, i as int) =~= seen);
    }
    found
}

} // verus!
