//! The record model: a normalized document view with identity fields, tags,
//! links and structured properties, plus the pure text work of ingestion —
//! frontmatter splitting, tag extraction and wikilink extraction.

use vstd::prelude::*;
use vstd::string::{StrSliceExecFns, StringExecFns};
use crate::lexer::clamp_pos;
use crate::props::{lookup_m, lookup_entry, MapEntry, PropVal};
use crate::text::{char_is_whitespace, find_at, is_prefix_m, lower_of, lowercase, push_char, str_eq, str_find, str_starts_with, ws_char};
use crate::value::strs_view;

verus! {

/// A vault note enriched with file metadata and parsed frontmatter.
#[derive(Debug)]
pub struct NoteContext {
    pub rel_path: String,
    pub name: String,
    pub ext: String,
    pub folder: String,
    pub tags: Vec<String>,
    pub links: Vec<String>,
    pub properties: Vec<MapEntry>,
    pub content: String,
}

/// A note has `tag` when some tag equals it or refines it hierarchically
/// (`a` matches `a/b`).
pub open spec fn has_tag_m(tags: Seq<Seq<char>>, tag: Seq<char>) -> bool {
    exists|i: int| 0 <= i < tags.len()
        && (#[trigger] tags[i] == tag || is_prefix_m(tag.push('/'), tags[i]))
}

/// A note links to `target` when some link equals it case-insensitively.
pub open spec fn has_link_m(links: Seq<Seq<char>>, target: Seq<char>) -> bool {
    exists|i: int| 0 <= i < links.len() && lower_of(#[trigger] links[i]) == lower_of(target)
}

impl NoteContext {
    /// Get a frontmatter property value by key.
    pub fn get_property(&self, key: &str) -> (r: Option<&PropVal>)
        ensures
            match r {
                Some(v) => lookup_m(self.properties@, key@) == Some(*v),
                None => lookup_m(self.properties@, key@) is None,
            },
    {
        lookup_entry(&self.properties, key)
    }

    /// Check if the note has a specific tag (prefix match: `type/project`
    /// matches `type/project/foo`).
    pub fn has_tag(&self, tag: &str) -> (r: bool)
        ensures
            r == has_tag_m(strs_view(self.tags@), tag@),
    {
        let mut probe = tag.to_owned();
        push_char(&mut probe, '/');
        let mut i: usize = 0;
        while i < self.tags.len()
            invariant
                i <= self.tags@.len(),
                probe@ == tag@.push('/'),
                forall|j: int| 0 <= j < i ==> !(#[trigger] strs_view(self.tags@)[j] == tag@
                    || is_prefix_m(tag@.push('/'), strs_view(self.tags@)[j])),
            decreases self.tags@.len() - i,
        {
            if str_eq(self.tags[i].as_str(), tag) || str_starts_with(self.tags[i].as_str(), probe.as_str()) {
                proof {
                    let tv = strs_view(self.tags@);
                    assert(tv[i as int] == self.tags@[i as int]@);
                    assert(tv[i as int] == tag@ || is_prefix_m(tag@.push('/'), tv[i as int]));
                }
                return true;
            }
            i += 1;
        }
        false
    }

    /// Check if the note links to a given target (by name, case-insensitive).
    pub fn has_link(&self, target: &str) -> (r: bool)
        ensures
            r == has_link_m(strs_view(self.links@), target@),
    {
        let target_lower = lowercase(target);
        let mut i: usize = 0;
        while i < self.links.len()
            invariant
                i <= self.links@.len(),
                target_lower@ == lower_of(target@),
                forall|j: int| 0 <= j < i ==> lower_of(#[trigger] strs_view(self.links@)[j]) != lower_of(target@),
            decreases self.links@.len() - i,
        {
            let ll = lowercase(self.links[i].as_str());
            if str_eq(ll.as_str(), target_lower.as_str()) {
                proof {
                    let lv = strs_view(self.links@);
                    assert(lv[i as int] == self.links@[i as int]@);
                    assert(lower_of(lv[i as int]) == lower_of(target@));
                }
                return true;
            }
            i += 1;
        }
        false
    }
}

// ─── Tag extraction ─────────────────────────────────────────

/// `s` with every leading `#` removed.
pub open spec fn strip_hashes_m(s: Seq<char>) -> Seq<char>
    decreases s.len(),
{
    if s.len() > 0 && s[0] == '#' {
        strip_hashes_m(s.drop_first())
    } else {
        s
    }
}

pub open spec fn trim_start_m(s: Seq<char>) -> Seq<char>
    decreases s.len(),
{
    if s.len() > 0 && char_is_whitespace(s[0]) {
        trim_start_m(s.drop_first())
    } else {
        s
    }
}

pub open spec fn trim_end_m(s: Seq<char>) -> Seq<char>
    decreases s.len(),
{
    if s.len() > 0 && char_is_whitespace(s[s.len() - 1]) {
        trim_end_m(s.drop_last())
    } else {
        s
    }
}

/// `s` with whitespace removed from both ends.
pub open spec fn trim_m(s: Seq<char>) -> Seq<char> {
    trim_end_m(trim_start_m(s))
}

/// First position at or after `i` holding a comma, or the end of `s`.
pub open spec fn comma_end(s: Seq<char>, i: int) -> int
    decreases s.len() - i,
{
    if 0 <= i < s.len() && s[i] != ',' {
        comma_end(s, i + 1)
    } else {
        i
    }
}

/// Tags taken from a comma-separated string from position `i` on: each
/// part is trimmed, stripped of leading hashes, and kept when non-empty.
pub open spec fn str_tags_m(s: Seq<char>, i: int) -> Seq<Seq<char>>
    decreases s.len() - i,
{
    if !(0 <= i <= s.len()) {
        Seq::empty()
    } else {
        let e = clamp_pos(comma_end(s, i), i, s.len() as int);
        let t = strip_hashes_m(trim_m(s.subrange(i, e)));
        let this = if t.len() > 0 {
            seq![t]
        } else {
            Seq::<Seq<char>>::empty()
        };
        if e >= s.len() {
            this
        } else {
            this + str_tags_m(s, e + 1)
        }
    }
}

/// Tags taken from a sequence property: each string element stripped of
/// leading hashes, non-strings dropped.
pub open spec fn seq_tags_m(items: Seq<PropVal>) -> Seq<Seq<char>>
    decreases items.len(),
{
    if items.len() == 0 {
        Seq::empty()
    } else {
        seq_tags_m(items.take(items.len() - 1)) + (match items[items.len() - 1] {
            PropVal::Str(s) => seq![strip_hashes_m(s@)],
            _ => Seq::empty(),
        })
    }
}

/// What the `tags` property contributes: a sequence or a comma-separated
/// string of tags; anything else yields none.
pub open spec fn extract_tags_m(props: Seq<MapEntry>) -> Seq<Seq<char>> {
    match lookup_m(props, "tags"@) {
        None => Seq::empty(),
        Some(v) => match v {
            PropVal::List(items) => seq_tags_m(items@),
            PropVal::Str(s) => str_tags_m(s@, 0),
            _ => Seq::empty(),
        },
    }
}

/// A tag string with its leading hashes removed.
fn strip_hashes(s: &str) -> (r: String)
    ensures
        r@ == strip_hashes_m(s@),
{
    let n = s.unicode_len();
    proof {
        assert(s@.subrange(0, n as int) =~= s@);
    }
    let mut h: usize = 0;
    loop
        invariant
            n == s@.len(),
            h <= n,
            strip_hashes_m(s@) == strip_hashes_m(s@.subrange(h as int, n as int)),
        ensures
            h <= n,
            strip_hashes_m(s@) == s@.subrange(h as int, n as int),
        decreases n - h,
    {
        if h >= n {
            break;
        }
        if s.get_char(h) != '#' {
            proof {
                assert(s@.subrange(h as int, n as int)[0] == s@[h as int]);
            }
            break;
        }
        proof {
            assert(s@.subrange(h as int, n as int)[0] == s@[h as int]);
            assert(s@.subrange(h as int, n as int).drop_first() =~= s@.subrange(h + 1, n as int));
        }
        h += 1;
    }
    s.substring_char(h, n).to_owned()
}

/// One comma-separated part `s[from..to]`, trimmed and stripped of leading
/// hashes; `None` when nothing is left.
fn clean_part(s: &str, from: usize, to: usize) -> (r: Option<String>)
    requires
        from <= to <= s@.len(),
    ensures
        match r {
            Some(t) => t@ == strip_hashes_m(trim_m(s@.subrange(from as int, to as int))) && t@.len() > 0,
            None => strip_hashes_m(trim_m(s@.subrange(from as int, to as int))).len() == 0,
        },
{
    let ghost part = s@.subrange(from as int, to as int);
    let n = s.unicode_len();
    let mut a: usize = from;
    loop
        invariant
            n == s@.len(),
            from <= a <= to <= n,
            part == s@.subrange(from as int, to as int),
            trim_start_m(part) == trim_start_m(s@.subrange(a as int, to as int)),
        ensures
            from <= a <= to,
            trim_start_m(part) == s@.subrange(a as int, to as int),
        decreases to - a,
    {
        if a >= to {
            proof {
                assert(s@.subrange(a as int, to as int).len() == 0);
            }
            break;
        }
        if !ws_char(s.get_char(a)) {
            proof {
                assert(s@.subrange(a as int, to as int)[0] == s@[a as int]);
            }
            break;
        }
        proof {
            assert(s@.subrange(a as int, to as int)[0] == s@[a as int]);
            assert(s@.subrange(a as int, to as int).drop_first() =~= s@.subrange(a + 1, to as int));
        }
        a += 1;
    }
    let mut b: usize = to;
    loop
        invariant
            n == s@.len(),
            a <= b <= to <= n,
            part == s@.subrange(from as int, to as int),
            trim_start_m(part) == s@.subrange(a as int, to as int),
            trim_end_m(s@.subrange(a as int, to as int)) == trim_end_m(s@.subrange(a as int, b as int)),
        ensures
            a <= b <= to,
            trim_m(part) == s@.subrange(a as int, b as int),
        decreases b,
    {
        if b == a {
            proof {
                assert(s@.subrange(a as int, b as int).len() == 0);
            }
            break;
        }
        if !ws_char(s.get_char(b - 1)) {
            proof {
                assert(s@.subrange(a as int, b as int)[b - 1 - a] == s@[b - 1]);
            }
            break;
        }
        proof {
            assert(s@.subrange(a as int, b as int)[b - 1 - a] == s@[b - 1]);
            assert(s@.subrange(a as int, b as int).drop_last() =~= s@.subrange(a as int, b - 1));
        }
        b -= 1;
    }
    let ghost trimmed = s@.subrange(a as int, b as int);
    let mut h: usize = a;
    loop
        invariant
            n == s@.len(),
            a <= h <= b <= n,
            trimmed == s@.subrange(a as int, b as int),
            strip_hashes_m(trimmed) == strip_hashes_m(s@.subrange(h as int, b as int)),
        ensures
            a <= h <= b,
            strip_hashes_m(trimmed) == s@.subrange(h as int, b as int),
        decreases b - h,
    {
        if h >= b {
            proof {
                assert(s@.subrange(h as int, b as int).len() == 0);
            }
            break;
        }
        if s.get_char(h) != '#' {
            proof {
                assert(s@.subrange(h as int, b as int)[0] == s@[h as int]);
            }
            break;
        }
        proof {
            assert(s@.subrange(h as int, b as int)[0] == s@[h as int]);
            assert(s@.subrange(h as int, b as int).drop_first() =~= s@.subrange(h + 1, b as int));
        }
        h += 1;
    }
    if h == b {
        None
    } else {
        Some(s.substring_char(h, b).to_owned())
    }
}

/// Extract tags from the `tags` property (handles string, list, null).
pub fn extract_tags(props: &Vec<MapEntry>) -> (r: Vec<String>)
    ensures
        strs_view(r@) == extract_tags_m(props@),
{
    let mut out: Vec<String> = Vec::new();
    let found = lookup_entry(props, "tags");
    let val = match found {
        Some(v) => v,
        None => {
            proof {
                assert(strs_view(out@) =~= Seq::<Seq<char>>::empty());
            }
            return out;
        },
    };
    match val {
        PropVal::List(items) => {
            let mut i: usize = 0;
            while i < items.len()
                invariant
                    i <= items@.len(),
                    strs_view(out@) == seq_tags_m(items@.take(i as int)),
                decreases items@.len() - i,
            {
                let ghost before = out@;
                match &items[i] {
                    PropVal::Str(s) => {
                        let t = strip_hashes(s.as_str());
                        out.push(t);
                        proof {
                            assert(strs_view(out@) =~= strs_view(before).push(strip_hashes_m(items@[i as int]->Str_0@)));
                        }
                    },
                    _ => {},
                }
                proof {
                    assert(items@.take(i + 1).take(i as int) =~= items@.take(i as int));
                    assert(items@.take(i + 1)[i as int] == items@[i as int]);
                    match items@[i as int] {
                        PropVal::Str(s) => {
                            assert(strs_view(out@) =~= seq_tags_m(items@.take(i as int)) + seq![strip_hashes_m(s@)]);
                        },
                        _ => {},
                    }
                }
                i += 1;
            }
            proof {
                assert(items@.take(items@.len() as int) =~= items@);
            }
        },
        PropVal::Str(s) => {
            let text = s.as_str();
            let ghost sv = text@;
            let n = text.unicode_len();
            let mut i: usize = 0;
            loop
                invariant_except_break
                    str_tags_m(sv, 0) == strs_view(out@) + str_tags_m(sv, i as int),
                invariant
                    n == sv.len(),
                    sv == text@,
                    i <= n,
                ensures
                    str_tags_m(sv, 0) == strs_view(out@),
                decreases n - i,
            {
                let ghost out0 = out@;
                let mut e: usize = i;
                loop
                    invariant
                        n == sv.len(),
                        sv == text@,
                        i <= e <= n,
                        comma_end(sv, i as int) == comma_end(sv, e as int),
                    ensures
                        i <= e <= n,
                        e == comma_end(sv, i as int),
                    decreases n - e,
                {
                    if e >= n {
                        break;
                    }
                    if text.get_char(e) == ',' {
                        break;
                    }
                    e += 1;
                }
                proof {
                    assert(clamp_pos(comma_end(sv, i as int), i as int, sv.len() as int) == e);
                }
                match clean_part(text, i, e) {
                    Some(t) => {
                        out.push(t);
                        proof {
                            assert(strs_view(out@) =~= strs_view(out0).push(strip_hashes_m(trim_m(sv.subrange(i as int, e as int)))));
                            assert(strs_view(out0) + seq![strip_hashes_m(trim_m(sv.subrange(i as int, e as int)))] =~= strs_view(out@));
                        }
                    },
                    None => {
                        proof {
                            assert(strs_view(out0) + Seq::<Seq<char>>::empty() =~= strs_view(out0));
                        }
                    },
                }
                if e >= n {
                    proof {
                        assert(strs_view(out@) + Seq::<Seq<char>>::empty() =~= strs_view(out@));
                    }
                    break;
                }
                i = e + 1;
            }
        },
        _ => {
            proof {
                assert(strs_view(out@) =~= Seq::<Seq<char>>::empty());
            }
        },
    }
    out
}

// ─── Frontmatter splitting ──────────────────────────────────

/// How a document splits into frontmatter text and body: the document must
/// open with `---`, an optional newline is skipped, and the frontmatter runs
/// up to the first `\n---`; the body is what follows that fence, less one
/// leading newline. Absence means the document has no frontmatter fence and
/// is all body.
pub open spec fn frontmatter_split_m(s: Seq<char>) -> Option<(Seq<char>, Seq<char>)> {
    if !is_prefix_m("---"@, s) {
        None
    } else {
        let a: int = if s.len() > 3 && s[3] == '\n' {
            4
        } else {
            3
        };
        let rest = s.skip(a);
        match find_at(rest, "\n---"@, 0) {
            None => None,
            Some(e) => {
                let yaml = rest.subrange(0, e);
                let after = rest.skip(e + 4);
                let body = if after.len() > 0 && after[0] == '\n' {
                    after.drop_first()
                } else {
                    after
                };
                Some((yaml, body))
            },
        }
    }
}

/// Split a document into its frontmatter text and body, when it has a
/// frontmatter fence.
pub fn split_frontmatter(content: &str) -> (r: Option<(String, String)>)
    ensures
        match r {
            Some(p) => frontmatter_split_m(content@) == Some((p.0@, p.1@)),
            None => frontmatter_split_m(content@) is None,
        },
{
    if !str_starts_with(content, "---") {
        return None;
    }
    let n = content.unicode_len();
    proof {
        reveal_strlit("---");
    }
    let a: usize = if n > 3 && content.get_char(3) == '\n' {
        4
    } else {
        3
    };
    let rest = content.substring_char(a, n);
    let ghost restv = content@.skip(a as int);
    proof {
        assert(rest@ =~= restv);
    }
    let e = match str_find(rest, "\n---") {
        None => {
            return None;
        },
        Some(e) => e,
    };
    proof {
        reveal_strlit("\n---");
    }
    let m = rest.unicode_len();
    let yaml = rest.substring_char(0, e).to_owned();
    let has_nl = e + 4 < m && rest.get_char(e + 4) == '\n';
    let bstart = if has_nl {
        e + 5
    } else {
        e + 4
    };
    let body = rest.substring_char(bstart, m).to_owned();
    proof {
        let after = restv.skip(e + 4);
        assert(after =~= restv.subrange(e + 4, restv.len() as int));
        if after.len() > 0 && after[0] == '\n' {
            assert(body@ =~= after.drop_first());
        } else {
            assert(body@ =~= after);
        }
    }
    Some((yaml, body))
}

// ─── Wikilink extraction ────────────────────────────────────

/// End of the run of characters that may form a link target: anything but
/// `]` or `|`.
pub open spec fn target_end(s: Seq<char>, i: int) -> int
    decreases s.len() - i,
{
    if 0 <= i < s.len() && s[i] != ']' && s[i] != '|' {
        target_end(s, i + 1)
    } else {
        i
    }
}

/// End of the run of characters that may form display text: anything but
/// `]`.
pub open spec fn display_end(s: Seq<char>, i: int) -> int
    decreases s.len() - i,
{
    if 0 <= i < s.len() && s[i] != ']' {
        display_end(s, i + 1)
    } else {
        i
    }
}

/// A wikilink match at position `i`: `[[target]]` or `[[target|display]]`,
/// with a non-empty target free of `]` and `|` and non-empty display text
/// free of `]`. Yields the target and the position after the match.
pub open spec fn wl_match_at(s: Seq<char>, i: int) -> Option<(Seq<char>, int)> {
    if !(0 <= i && i + 1 < s.len() && s[i] == '[' && s[i + 1] == '[') {
        None
    } else {
        let j = i + 2;
        let k = clamp_pos(target_end(s, j), j, s.len() as int);
        if k == j {
            None
        } else {
            let cap = s.subrange(j, k);
            if k < s.len() && s[k] == '|' {
                let m = clamp_pos(display_end(s, k + 1), k + 1, s.len() as int);
                if m == k + 1 {
                    None
                } else if m + 1 < s.len() && s[m] == ']' && s[m + 1] == ']' {
                    Some((cap, m + 2))
                } else {
                    None
                }
            } else if k + 1 < s.len() && s[k] == ']' && s[k + 1] == ']' {
                Some((cap, k + 2))
            } else {
                None
            }
        }
    }
}

/// All wikilink targets from position `i` on, leftmost first and
/// non-overlapping.
pub open spec fn wikilinks_m(s: Seq<char>, i: int) -> Seq<Seq<char>>
    decreases s.len() - i,
{
    if !(0 <= i < s.len()) {
        Seq::empty()
    } else {
        match wl_match_at(s, i) {
            Some(me) => seq![me.0] + wikilinks_m(s, clamp_pos(me.1, i + 1, s.len() as int)),
            None => wikilinks_m(s, i + 1),
        }
    }
}

/// Try to read a wikilink at position `i`.
fn wl_try(s: &str, i: usize) -> (r: Option<(String, usize)>)
    requires
        i < s@.len(),
    ensures
        match r {
            Some(p) => wl_match_at(s@, i as int) == Some((p.0@, p.1 as int)) && i < p.1 <= s@.len(),
            None => wl_match_at(s@, i as int) is None,
        },
{
    let n = s.unicode_len();
    if !(i + 1 < n && s.get_char(i) == '[' && s.get_char(i + 1) == '[') {
        return None;
    }
    let j = i + 2;
    let mut k: usize = j;
    loop
        invariant
            n == s@.len(),
            j <= k <= n,
            target_end(s@, j as int) == target_end(s@, k as int),
        ensures
            j <= k <= n,
            k == target_end(s@, j as int),
        decreases n - k,
    {
        if k >= n {
            break;
        }
        let c = s.get_char(k);
        if c == ']' || c == '|' {
            break;
        }
        k += 1;
    }
    proof {
        assert(clamp_pos(target_end(s@, j as int), j as int, s@.len() as int) == k);
    }
    if k == j {
        return None;
    }
    let cap = s.substring_char(j, k).to_owned();
    if k < n && s.get_char(k) == '|' {
        let mut m: usize = k + 1;
        loop
            invariant
                n == s@.len(),
                k + 1 <= m <= n,
                display_end(s@, k + 1) == display_end(s@, m as int),
            ensures
                k + 1 <= m <= n,
                m == display_end(s@, k + 1),
            decreases n - m,
        {
            if m >= n {
                break;
            }
            if s.get_char(m) == ']' {
                break;
            }
            m += 1;
        }
        proof {
            assert(clamp_pos(display_end(s@, k + 1), k + 1, s@.len() as int) == m);
        }
        if m == k + 1 {
            return None;
        }
        if n - m > 1 && s.get_char(m) == ']' && s.get_char(m + 1) == ']' {
            return Some((cap, m + 2));
        }
        return None;
    }
    if n - k > 1 && s.get_char(k) == ']' && s.get_char(k + 1) == ']' {
        return Some((cap, k + 2));
    }
    None
}

/// Extract `[[wikilink]]` targets from a note body.
pub fn extract_wikilinks(body: &str) -> (r: Vec<String>)
    ensures
        strs_view(r@) == wikilinks_m(body@, 0),
{
    let ghost s = body@;
    let n = body.unicode_len();
    let mut out: Vec<String> = Vec::new();
    let mut i: usize = 0;
    while i < n
        invariant
            n == s.len(),
            s == body@,
            i <= n,
            wikilinks_m(s, 0) == strs_view(out@) + wikilinks_m(s, i as int),
        decreases n - i,
    {
        let ghost out0 = out@;
        match wl_try(body, i) {
            Some(p) => {
                let (cap, e) = p;
                proof {
                    assert(clamp_pos(e as int, i + 1, s.len() as int) == e as int);
                    assert(strs_view(out0.push(cap)) =~= strs_view(out0).push(cap@));
                    assert(strs_view(out0) + (seq![cap@] + wikilinks_m(s, e as int)) =~= strs_view(out0).push(cap@) + wikilinks_m(s, e as int));
                }
                out.push(cap);
                i = e;
            },
            None => {
                i += 1;
            },
        }
    }
    proof {
        assert(wikilinks_m(s, n as int) =~= Seq::<Seq<char>>::empty());
        assert(strs_view(out@) + Seq::<Seq<char>>::empty() =~= strs_view(out@));
    }
    out
}

} // verus!
