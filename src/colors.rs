//! The language color table: decoding the published document and looking up
//! a language's display color.
use vstd::prelude::*;
use vstd::utf8::encode_utf8;
use crate::gh::GithubApiError;

verus! {

/// What `serde_json` reads from `body` at the string member `key` of its top
/// object: `None` when the body is no JSON, or the member is absent or no string.
pub uninterp spec fn json_str_member(body: Seq<char>, key: Seq<char>) -> Option<Seq<char>>;

/// What `base64` (standard alphabet, padded) decodes `b` to, if it is valid.
pub uninterp spec fn base64_decoded(b: Seq<u8>) -> Option<Seq<u8>>;

/// The members of the JSON object in `b`, each with the string that its own
/// member `field` holds, if any; `None` when `b` is no JSON object.
pub uninterp spec fn json_object_members(b: Seq<u8>, field: Seq<char>) -> Option<
    Seq<(Seq<char>, Option<Seq<char>>)>,
>;

/// Relies on `serde_json::from_str`, `Value::get` and `Value::as_str`.
#[verifier::external_body]
fn json_str_field(body: &str, key: &str) -> (r: Option<String>)
    ensures
        r.deep_view() == json_str_member(body@, key@),
{
    serde_json::from_str::<serde_json::Value>(body).ok()?.get(key)?.as_str().map(String::from)
}

/// Relies on `base64::decode` (standard configuration).
#[verifier::external_body]
fn decode_base64(b: &Vec<u8>) -> (r: Option<Vec<u8>>)
    ensures
        match r {
            Some(d) => base64_decoded(b@) == Some(d@),
            None => base64_decoded(b@).is_none(),
        },
{
    base64::decode(b).ok()
}

/// Relies on `serde_json::from_slice` into a `serde_json::Map`, whose keys are
/// unique, and on `Value::get` and `Value::as_str` for each member.
#[verifier::external_body]
fn object_members(b: &Vec<u8>, field: &str) -> (r: Option<Vec<(String, Option<String>)>>)
    ensures
        r.deep_view() == json_object_members(b@, field@),
        r matches Some(v) ==> keys_distinct(v.deep_view()),
{
    let m = serde_json::from_slice::<serde_json::Map<String, serde_json::Value>>(b).ok()?;
    Some(m.into_iter().map(|(k, v)| (k, v.get(field).and_then(|c| c.as_str()).map(String::from))).collect())
}

/// No key occurs twice.
pub open spec fn keys_distinct<V>(s: Seq<(Seq<char>, V)>) -> bool {
    forall|i: int, j: int| 0 <= i < s.len() && 0 <= j < s.len() && i != j ==> s[i].0 != s[j].0
}

/// The map that pairs each key with its value.
pub open spec fn map_of(s: Seq<(Seq<char>, Seq<char>)>) -> Map<Seq<char>, Seq<char>>
    decreases s.len(),
{
    if s.len() == 0 {
        Map::empty()
    } else {
        map_of(s.drop_last()).insert(s.last().0, s.last().1)
    }
}

/// The colors that the members declare: those without one are left out.
pub open spec fn declared_colors(s: Seq<(Seq<char>, Option<Seq<char>>)>) -> Map<Seq<char>, Seq<char>>
    decreases s.len(),
{
    if s.len() == 0 {
        Map::empty()
    } else {
        match s.last().1 {
            Some(c) => declared_colors(s.drop_last()).insert(s.last().0, c),
            None => declared_colors(s.drop_last()),
        }
    }
}

/// `b` without its newline bytes.
pub open spec fn without_newlines(b: Seq<u8>) -> Seq<u8>
    decreases b.len(),
{
    if b.len() == 0 {
        Seq::empty()
    } else if b.last() == 10u8 {
        without_newlines(b.drop_last())
    } else {
        without_newlines(b.drop_last()).push(b.last())
    }
}

/// The table that a color document (an envelope whose `content` is the
/// base64 of a JSON object of languages) gives, or `None` if it is malformed.
pub open spec fn color_table_of(body: Seq<char>) -> Option<Map<Seq<char>, Seq<char>>> {
    if json_str_member(body, "encoding"@) != Some("base64"@) {
        None
    } else {
        match json_str_member(body, "content"@) {
            None => None,
            Some(c) => match base64_decoded(without_newlines(encode_utf8(c))) {
                None => None,
                Some(d) => match json_object_members(d, "color"@) {
                    None => None,
                    Some(ms) => Some(declared_colors(ms)),
                },
            },
        }
    }
}

/// A color for each known language name.
pub struct ColorTable {
    entries: Vec<(String, String)>,
}

impl View for ColorTable {
    type V = Map<Seq<char>, Seq<char>>;

    closed spec fn view(&self) -> Map<Seq<char>, Seq<char>> {
        map_of(self.entries.deep_view())
    }
}

proof fn lemma_map_of_index(s: Seq<(Seq<char>, Seq<char>)>, i: int)
    requires
        keys_distinct(s),
        0 <= i < s.len(),
    ensures
        map_of(s).contains_key(s[i].0),
        map_of(s)[s[i].0] == s[i].1,
    decreases s.len(),
{
    if i < s.len() - 1 {
        let t = s.drop_last();
        assert(t[i] == s[i]);
        assert(keys_distinct(t)) by {
            assert forall|a: int, b: int| 0 <= a < t.len() && 0 <= b < t.len() && a != b implies t[a].0 != t[b].0 by {
                assert(t[a] == s[a] && t[b] == s[b]);
            }
        }
        lemma_map_of_index(t, i);
        assert(s[i].0 != s[s.len() - 1].0);
    }
}

proof fn lemma_map_of_absent(s: Seq<(Seq<char>, Seq<char>)>, k: Seq<char>)
    requires
        forall|i: int| 0 <= i < s.len() ==> (#[trigger] s[i]).0 != k,
    ensures
        !map_of(s).contains_key(k),
    decreases s.len(),
{
    if s.len() > 0 {
        let t = s.drop_last();
        assert forall|i: int| 0 <= i < t.len() implies (#[trigger] t[i]).0 != k by {
            assert(t[i] == s[i]);
        }
        lemma_map_of_absent(t, k);
        assert(s[s.len() - 1].0 != k);
    }
}

impl ColorTable {
    /// Keys are unique.
    pub closed spec fn wf(&self) -> bool {
        keys_distinct(self.entries.deep_view())
    }

    /// The table of the members that declare a color; members without one
    /// are left out.
    pub fn from_members(members: Vec<(String, Option<String>)>) -> (r: ColorTable)
        requires
            keys_distinct(members.deep_view()),
        ensures
            r.wf(),
            r@ == declared_colors(members.deep_view()),
    {
        let ghost s = members.deep_view();
        let mut entries: Vec<(String, String)> = Vec::new();
        let n = members.len();
        let mut i: usize = 0;
        while i < n
            invariant
                i <= n,
                n == members.len(),
                s == members.deep_view(),
                keys_distinct(s),
                keys_distinct(entries.deep_view()),
                map_of(entries.deep_view()) == declared_colors(s.take(i as int)),
                forall|j: int| 0 <= j < entries.len() ==> exists|m: int| 0 <= m < i && #[trigger] s[m].0 == (#[trigger] entries.deep_view()[j]).0,
            decreases n - i,
        {
            let ghost old_entries = entries.deep_view();
            assert(s.take(i + 1).drop_last() =~= s.take(i as int));
            assert(s[i as int] == members[i as int].deep_view());
            match &members[i].1 {
                Some(c) => {
                    let k = members[i].0.clone();
                    let v = c.clone();
                    entries.push((k, v));
                    proof {
                        let e = entries.deep_view();
                        assert(e.drop_last() =~= old_entries);
                        assert(e.last().0 == s[i as int].0 && e.last().1 == s[i as int].1.unwrap());
                        assert forall|a: int, b: int| 0 <= a < e.len() && 0 <= b < e.len() && a != b implies e[a].0 != e[b].0 by {
                            if a < e.len() - 1 && b < e.len() - 1 {
                                assert(e[a] == old_entries[a] && e[b] == old_entries[b]);
                            } else if a < e.len() - 1 {
                                assert(e[a] == old_entries[a]);
                                let m = choose|m: int| 0 <= m < i && #[trigger] s[m].0 == (#[trigger] old_entries[a]).0;
                                assert(s[m].0 != s[i as int].0);
                            } else if b < e.len() - 1 {
                                assert(e[b] == old_entries[b]);
                                let m = choose|m: int| 0 <= m < i && #[trigger] s[m].0 == (#[trigger] old_entries[b]).0;
                                assert(s[m].0 != s[i as int].0);
                            }
                        }
                        assert forall|j: int| 0 <= j < e.len() implies exists|m: int| 0 <= m < i + 1 && #[trigger] s[m].0 == (#[trigger] e[j]).0 by {
                            if j < e.len() - 1 {
                                assert(e[j] == old_entries[j]);
                                let m = choose|m: int| 0 <= m < i && #[trigger] s[m].0 == (#[trigger] old_entries[j]).0;
                                assert(s[m].0 == e[j].0);
                            } else {
                                assert(s[i as int].0 == e[j].0);
                            }
                        }
                    }
                },
                None => {},
            }
            i = i + 1;
        }
        assert(s.take(n as int) =~= s);
        ColorTable { entries }
    }

    /// The color of `language`, if the table has one.
    pub fn get(&self, language: &String) -> (r: Option<String>)
        requires
            self.wf(),
        ensures
            r.deep_view() == (if self@.contains_key(language@) {
                Some(self@[language@])
            } else {
                None
            }),
    {
        let n = self.entries.len();
        let mut j: usize = 0;
        while j < n
            invariant
                j <= n,
                n == self.entries.len(),
                self.wf(),
                forall|i: int| 0 <= i < j ==> (#[trigger] self.entries.deep_view()[i]).0 != language@,
            decreases n - j,
        {
            if self.entries[j].0 == *language {
                proof {
                    assert(self.entries.deep_view()[j as int].0 == language@);
                    lemma_map_of_index(self.entries.deep_view(), j as int);
                }
                return Some(self.entries[j].1.clone());
            }
            j = j + 1;
        }
        proof {
            lemma_map_of_absent(self.entries.deep_view(), language@);
        }
        None
    }
}

/// Drops the newline bytes of `b`.
pub fn strip_newlines(b: &[u8]) -> (r: Vec<u8>)
    ensures
        r@ == without_newlines(b@),
{
    let mut out: Vec<u8> = Vec::new();
    let mut i: usize = 0;
    while i < b.len()
        invariant
            i <= b.len(),
            out@ == without_newlines(b@.take(i as int)),
        decreases b.len() - i,
    {
        assert(b@.take(i + 1).drop_last() =~= b@.take(i as int));
        if b[i] != 10u8 {
            out.push(b[i]);
        }
        i = i + 1;
    }
    assert(b@.take(b.len() as int) =~= b@);
    out
}

/// Decodes a color document: its `encoding` must be `base64`; its `content`,
/// without newlines, is decoded and read as a JSON object of languages, and
/// each language that declares a `color` string keeps it. Any other shape is
/// a malformed response.
pub fn color_table_from_document(body: &str) -> (r: Result<ColorTable, GithubApiError>)
    ensures
        match r {
            Ok(t) => t.wf() && color_table_of(body@) == Some(t@),
            Err(e) => color_table_of(body@).is_none() && e == GithubApiError::MalformedResponse,
        },
{
    let encoding = json_str_field(body, "encoding");
    let expected = String::from_str("base64");
    let is_base64 = match &encoding {
        Some(e) => *e == expected,
        None => false,
    };
    if !is_base64 {
        return Err(GithubApiError::MalformedResponse);
    }
    let content = match json_str_field(body, "content") {
        Some(c) => c,
        None => return Err(GithubApiError::MalformedResponse),
    };
    let stripped = strip_newlines(content.as_str().as_bytes());
    let decoded = match decode_base64(&stripped) {
        Some(d) => d,
        None => return Err(GithubApiError::MalformedResponse),
    };
    match object_members(&decoded, "color") {
        Some(ms) => Ok(ColorTable::from_members(ms)),
        None => Err(GithubApiError::MalformedResponse),
    }
}

/// Members that declare no color are absent from the table; every other
/// member is present with its own color, and the table holds nothing else.
pub proof fn lemma_undeclared_colors_dropped(s: Seq<(Seq<char>, Option<Seq<char>>)>)
    requires
        keys_distinct(s),
    ensures
        forall|i: int| 0 <= i < s.len() && (#[trigger] s[i]).1.is_none() ==> !declared_colors(s).contains_key(s[i].0),
        forall|i: int| 0 <= i < s.len() && (#[trigger] s[i]).1.is_some() ==> declared_colors(s).contains_key(s[i].0)
            && declared_colors(s)[s[i].0] == s[i].1.unwrap(),
        forall|k: Seq<char>| #[trigger] declared_colors(s).contains_key(k) ==> exists|i: int| 0 <= i < s.len() && (#[trigger] s[i]).0 == k && s[i].1.is_some(),
    decreases s.len(),
{
    if s.len() > 0 {
        let t = s.drop_last();
        let l = s.len() - 1;
        assert forall|a: int, b: int| 0 <= a < t.len() && 0 <= b < t.len() && a != b implies t[a].0 != t[b].0 by {
            assert(t[a] == s[a] && t[b] == s[b]);
        }
        lemma_undeclared_colors_dropped(t);
        assert forall|i: int| 0 <= i < s.len() && (#[trigger] s[i]).1.is_none() implies !declared_colors(s).contains_key(s[i].0) by {
            if i < l {
                assert(t[i] == s[i]);
                assert(s[i].0 != s[l].0);
            } else if declared_colors(t).contains_key(s[l].0) {
                let m = choose|m: int| 0 <= m < t.len() && (#[trigger] t[m]).0 == s[l].0 && t[m].1.is_some();
                assert(t[m] == s[m]);
            }
        }
        assert forall|i: int| 0 <= i < s.len() && (#[trigger] s[i]).1.is_some() implies declared_colors(s).contains_key(s[i].0)
            && declared_colors(s)[s[i].0] == s[i].1.unwrap() by {
            if i < l {
                assert(t[i] == s[i]);
                assert(s[i].0 != s[l].0);
            }
        }
        assert forall|k: Seq<char>| #[trigger] declared_colors(s).contains_key(k) implies exists|i: int| 0 <= i < s.len() && (#[trigger] s[i]).0 == k && s[i].1.is_some() by {
            if k == s[l].0 && s[l].1.is_some() {
                assert(s[l].0 == k);
            } else {
                assert(declared_colors(t).contains_key(k));
                let i = choose|i: int| 0 <= i < t.len() && (#[trigger] t[i]).0 == k && t[i].1.is_some();
                assert(t[i] == s[i]);
            }
        }
    }
}

} // verus!
