//! The manifest synchronizer: rewrites the feature-list section of the
//! consuming package's build manifest so that its flags are exactly the
//! directory's building tags.
//!
//! The section is located structurally: it starts at the first line that
//! begins with the section header and runs to the next top-level section
//! header line (a line starting with an opening bracket) or to the end of
//! the text.  If no header is found, the new section is appended after a
//! blank-line separator.  The rewrite is destructive within the managed
//! section and preserves everything outside it.

use vstd::prelude::*;
use crate::text::tag_views;

verus! {

/// The structural marker that opens the feature-list section.
pub open spec fn header_lit() -> Seq<char> {
    "[features]"@
}

/// Holds when the feature-list header starts a line at position `i`.
pub open spec fn is_header_at(c: Seq<char>, i: int) -> bool {
    &&& 0 <= i
    &&& i + header_lit().len() <= c.len()
    &&& (i == 0 || c[i - 1] == '\n')
    &&& c.subrange(i, i + header_lit().len() as int) == header_lit()
}

/// The first header position at or after `k`, if any.
pub open spec fn header_pos_from(c: Seq<char>, k: nat) -> Option<nat>
    decreases c.len() - k,
{
    if k >= c.len() {
        None
    } else if is_header_at(c, k as int) {
        Some(k)
    } else {
        header_pos_from(c, k + 1)
    }
}

/// The first header position in the text, if any.
pub open spec fn header_pos(c: Seq<char>) -> Option<nat> {
    header_pos_from(c, 0)
}

/// The end of the section that starts before `k`: the first position at or
/// after `k` that begins a top-level section header line, or the end of the
/// text.
pub open spec fn section_end_from(c: Seq<char>, k: nat) -> nat
    decreases c.len() - k,
{
    if k >= c.len() {
        c.len()
    } else if k >= 1 && c[k - 1] == '\n' && c[k as int] == '[' {
        k
    } else {
        section_end_from(c, k + 1)
    }
}

/// One tag in quotes.
pub open spec fn quoted(t: Seq<char>) -> Seq<char> {
    "\""@ + t + "\""@
}

/// The quoted tags joined by a comma and a space.
pub open spec fn quoted_list(tags: Seq<Seq<char>>) -> Seq<char>
    decreases tags.len(),
{
    if tags.len() == 0 {
        Seq::empty()
    } else if tags.len() == 1 {
        quoted(tags[0])
    } else {
        quoted_list(tags.drop_last()) + ", "@ + quoted(tags.last())
    }
}

/// One per-tag flag line, with no dependencies.
pub open spec fn flag_line(t: Seq<char>) -> Seq<char> {
    t + " = []\n"@
}

/// The per-tag flag lines, in tag order.
pub open spec fn flag_lines(tags: Seq<Seq<char>>) -> Seq<char>
    decreases tags.len(),
{
    if tags.len() == 0 {
        Seq::empty()
    } else {
        flag_lines(tags.drop_last()) + flag_line(tags.last())
    }
}

/// The whole feature-list section: the header line, the aggregate flag
/// listing every tag, then one dependency-free flag per tag.
pub open spec fn features_section(tags: Seq<Seq<char>>) -> Seq<char> {
    "[features]\nALL = ["@ + quoted_list(tags) + "]\n"@ + flag_lines(tags)
}

/// The synchronized manifest text: the feature-list section replaced in
/// place where one exists, appended after a blank line otherwise.
pub open spec fn spec_sync(c: Seq<char>, tags: Seq<Seq<char>>) -> Seq<char> {
    match header_pos(c) {
        Some(i) => c.take(i as int) + features_section(tags) + c.skip(
            section_end_from(c, (i + 1) as nat) as int,
        ),
        None => c + "\n\n"@ + features_section(tags),
    }
}

/// A found header position is minimal and marks a header.
proof fn lemma_header_pos_from_some(c: Seq<char>, k: nat, i: nat)
    requires
        header_pos_from(c, k) == Some(i),
    ensures
        k <= i,
        i < c.len(),
        is_header_at(c, i as int),
        forall|q: int| k <= q < i ==> !is_header_at(c, q),
    decreases c.len() - k,
{
    if k >= c.len() {
        assert(false);
    } else if is_header_at(c, k as int) {
    } else {
        lemma_header_pos_from_some(c, k + 1, i);
    }
}

/// An absent header position means no position marks a header.
proof fn lemma_header_pos_from_none(c: Seq<char>, k: nat)
    requires
        header_pos_from(c, k) == None::<nat>,
    ensures
        forall|q: int| k <= q < c.len() ==> !is_header_at(c, q),
    decreases c.len() - k,
{
    if k < c.len() {
        lemma_header_pos_from_none(c, k + 1);
    }
}

/// The section end lies between `k` and the end of the text, is the first
/// boundary, and is itself a boundary or the end.
proof fn lemma_section_end_bounds(c: Seq<char>, k: nat)
    requires
        k >= 1,
        k <= c.len(),
    ensures
        k <= section_end_from(c, k) <= c.len(),
        forall|q: int|
            k <= q < section_end_from(c, k) ==> !((#[trigger] c[q - 1]) == '\n' && c[q] == '['),
        section_end_from(c, k) < c.len() ==> (c[section_end_from(c, k) - 1] == '\n'
            && c[section_end_from(c, k) as int] == '['),
    decreases c.len() - k,
{
    if k >= c.len() {
    } else if c[k - 1] == '\n' && c[k as int] == '[' {
    } else {
        lemma_section_end_bounds(c, k + 1);
    }
}

/// One character of a building tag: an ASCII letter or digit.
pub open spec fn is_tag_char(ch: char) -> bool {
    ||| 48 <= ch as u32 && ch as u32 <= 57
    ||| 65 <= ch as u32 && ch as u32 <= 90
    ||| 97 <= ch as u32 && ch as u32 <= 122
}

/// A valid building tag: non-empty, letters and digits only.
pub open spec fn valid_tag(t: Seq<char>) -> bool {
    t.len() > 0 && forall|i: int| 0 <= i < t.len() ==> is_tag_char(#[trigger] t[i])
}

/// A tag character is neither a newline nor an opening bracket.
proof fn lemma_tag_char_not(ch: char)
    requires
        is_tag_char(ch),
    ensures
        ch != '\n',
        ch != '[',
{
    assert('\n' as u32 == 10);
    assert('[' as u32 == 91);
}

/// The quoted tag list contains no newline.
proof fn lemma_quoted_list_no_newline(tags: Seq<Seq<char>>)
    requires
        forall|k: int| 0 <= k < tags.len() ==> valid_tag(#[trigger] tags[k]),
    ensures
        forall|p: int|
            0 <= p < quoted_list(tags).len() ==> (#[trigger] quoted_list(tags)[p]) != '\n',
    decreases tags.len(),
{
    reveal_strlit("\"");
    reveal_strlit(", ");
    if tags.len() == 0 {
    } else if tags.len() == 1 {
        let t = tags[0];
        assert forall|p: int| 0 <= p < quoted_list(tags).len() implies (
        #[trigger] quoted_list(tags)[p]) != '\n' by {
            if 1 <= p < 1 + t.len() {
                lemma_tag_char_not(t[p - 1]);
            }
        }
    } else {
        lemma_quoted_list_no_newline(tags.drop_last());
        let ql = quoted_list(tags.drop_last());
        let t = tags.last();
        assert forall|p: int| 0 <= p < quoted_list(tags).len() implies (
        #[trigger] quoted_list(tags)[p]) != '\n' by {
            if p < ql.len() {
                assert(quoted_list(tags)[p] == ql[p]);
            } else if ql.len() + 2 + 1 <= p < ql.len() + 2 + 1 + t.len() {
                lemma_tag_char_not(t[p - (ql.len() + 3)]);
            }
        }
    }
}

/// The per-tag flag lines: every line start is a tag character, every other
/// newline is final, and the block ends with a newline.
proof fn lemma_flag_lines_shape(tags: Seq<Seq<char>>)
    requires
        forall|k: int| 0 <= k < tags.len() ==> valid_tag(#[trigger] tags[k]),
    ensures
        tags.len() == 0 <==> flag_lines(tags).len() == 0,
        tags.len() > 0 ==> flag_lines(tags)[flag_lines(tags).len() - 1] == '\n',
        tags.len() > 0 ==> is_tag_char(flag_lines(tags)[0]),
        forall|p: int|
            0 < p < flag_lines(tags).len() && flag_lines(tags)[p - 1] == '\n' ==> is_tag_char(
                #[trigger] flag_lines(tags)[p],
            ),
    decreases tags.len(),
{
    reveal_strlit(" = []\n");
    if tags.len() > 0 {
        lemma_flag_lines_shape(tags.drop_last());
        let fl0 = flag_lines(tags.drop_last());
        let t = tags.last();
        let line = flag_line(t);
        assert(line.len() == t.len() + 6);
        assert(line[line.len() - 1] == '\n');
        assert forall|q: int| 0 <= q < line.len() - 1 implies (#[trigger] line[q]) != '\n' by {
            if q < t.len() {
                lemma_tag_char_not(t[q]);
            }
        }
        assert(is_tag_char(line[0]));
        let fl = flag_lines(tags);
        assert(fl == fl0 + line);
        if fl0.len() > 0 {
            assert(fl[0] == fl0[0]);
        } else {
            assert(fl[0] == line[0]);
        }
        assert forall|p: int|
            0 < p < fl.len() && fl[p - 1] == '\n' implies is_tag_char(#[trigger] fl[p]) by {
            if p < fl0.len() {
                assert(fl[p] == fl0[p]);
                assert(fl[p - 1] == fl0[p - 1]);
                assert(is_tag_char(fl0[p]));
            } else if p == fl0.len() {
                assert(fl[p] == line[0]);
            } else {
                let q = p - fl0.len();
                assert(fl[p - 1] == line[q - 1]);
                assert(q - 1 < line.len() - 1);
                assert(line[q - 1] != '\n');
            }
        }
    }
}

/// The rendered feature-list section: it starts with the header on a line of
/// its own, ends with a newline, and no later line starts with an opening
/// bracket.
#[verifier::rlimit(100)]
proof fn lemma_section_shape(tags: Seq<Seq<char>>)
    requires
        forall|k: int| 0 <= k < tags.len() ==> valid_tag(#[trigger] tags[k]),
    ensures
        features_section(tags).len() >= 13,
        features_section(tags).subrange(0, 10) == header_lit(),
        features_section(tags)[features_section(tags).len() - 1] == '\n',
        forall|p: int|
            0 < p < features_section(tags).len() && (#[trigger] features_section(tags)[p - 1])
                == '\n' ==> features_section(tags)[p] != '[',
{
    reveal_strlit("[features]");
    reveal_strlit("[features]\nALL = [");
    reveal_strlit("]\n");
    let l1 = "[features]\nALL = ["@;
    let ql = quoted_list(tags);
    let fl = flag_lines(tags);
    let s = features_section(tags);
    lemma_quoted_list_no_newline(tags);
    lemma_flag_lines_shape(tags);
    assert(l1.len() == 18);
    assert(s.len() == 18 + ql.len() + 2 + fl.len());
    assert(s.subrange(0, 10) =~= header_lit());
    if tags.len() == 0 {
        assert(s[s.len() - 1] == '\n');
    } else {
        assert(s[s.len() - 1] == fl[fl.len() - 1]);
    }
    let b = 18 + ql.len() as int;
    assert forall|p: int|
        0 < p < s.len() && (#[trigger] s[p - 1]) == '\n' implies s[p] != '[' by {
        if p < 18 {
            assert(s[p - 1] == l1[p - 1]);
            assert(s[p] == l1[p]);
            if l1[p - 1] == '\n' {
                assert(p == 11);
            }
        } else if p <= b {
            if p - 1 >= 18 {
                assert(s[p - 1] == ql[p - 1 - 18]);
            } else {
                assert(s[p - 1] == l1[17]);
            }
            assert(s[p - 1] != '\n');
        } else if p == b + 1 {
            assert(s[p - 1] == ']');
        } else if p == b + 2 {
            assert(s[p - 1] == '\n');
            assert(p < s.len());
            assert(fl.len() > 0);
            assert(s[p] == fl[0]);
            assert(is_tag_char(fl[0]));
            lemma_tag_char_not(fl[0]);
        } else {
            let q = p - (b + 2);
            assert(s[p - 1] == fl[q - 1]);
            assert(s[p] == fl[q]);
            if fl[q - 1] == '\n' {
                assert(is_tag_char(fl[q]));
                lemma_tag_char_not(fl[q]);
            }
        }
    }
}

/// A position that marks a header, with none before it, is the found one.
proof fn lemma_header_pos_exact(c: Seq<char>, k: nat, i: nat)
    requires
        k <= i,
        is_header_at(c, i as int),
        forall|q: int| k <= q < i ==> !is_header_at(c, q),
    ensures
        header_pos_from(c, k) == Some(i),
    decreases i - k,
{
    reveal_strlit("[features]");
    assert(i < c.len());
    if k < i {
        lemma_header_pos_exact(c, k + 1, i);
    }
}

/// A first boundary position at or after `k` is the section end.
proof fn lemma_section_end_exact(c: Seq<char>, k: nat, e: nat)
    requires
        1 <= k <= e <= c.len(),
        forall|q: int| k <= q < e ==> !((#[trigger] c[q - 1]) == '\n' && c[q] == '['),
        e < c.len() ==> (c[e - 1] == '\n' && c[e as int] == '['),
    ensures
        section_end_from(c, k) == e,
    decreases e - k,
{
    if k < e {
        lemma_section_end_exact(c, k + 1, e);
    }
}

/// Synchronizing twice against the same tag set gives the same text as
/// synchronizing once: the rewrite is idempotent.
#[verifier::rlimit(100)]
pub proof fn lemma_sync_idempotent(c: Seq<char>, tags: Seq<Seq<char>>)
    requires
        forall|k: int| 0 <= k < tags.len() ==> valid_tag(#[trigger] tags[k]),
    ensures
        spec_sync(spec_sync(c, tags), tags) == spec_sync(c, tags),
{
    reveal_strlit("[features]");
    reveal_strlit("\n\n");
    let s = features_section(tags);
    lemma_section_shape(tags);
    let hl = header_lit();
    assert(hl.len() == 10);
    assert(hl[0] == '[');
    assert forall|q: int| 1 <= q < 10 implies hl[q] != '[' by {
        assert(q == 1 || q == 2 || q == 3 || q == 4 || q == 5 || q == 6 || q == 7 || q == 8 || q
            == 9);
    }
    assert forall|q: int| 0 <= q < 10 implies hl[q] != '\n' by {
        assert(q == 0 || q == 1 || q == 2 || q == 3 || q == 4 || q == 5 || q == 6 || q == 7 || q
            == 8 || q == 9);
    }
    assert(s[0] == s.subrange(0, 10)[0]);
    assert(s[0] == '[');
    match header_pos(c) {
        Some(i) => {
            lemma_header_pos_from_some(c, 0, i);
            assert(i + 10 <= c.len());
            let e = section_end_from(c, (i + 1) as nat);
            lemma_section_end_bounds(c, (i + 1) as nat);
            let res = c.take(i as int) + s + c.skip(e as int);
            assert(spec_sync(c, tags) == res);
            let e2 = i + s.len();
            assert forall|p: int| 0 <= p < s.len() implies #[trigger] res[i + p] == s[p] by {}
            assert(is_header_at(res, i as int)) by {
                assert(res.subrange(i as int, i as int + 10) =~= s.subrange(0, 10));
                if i > 0 {
                    assert(res[i - 1] == c[i - 1]);
                }
            }
            assert forall|q: int| 0 <= q < i implies !is_header_at(res, q) by {
                if is_header_at(res, q) {
                    if q + 10 <= i {
                        assert(res.subrange(q, q + 10) =~= c.subrange(q, q + 10));
                        assert(c.subrange(q, q + 10) == hl);
                        if q > 0 {
                            assert(res[q - 1] == c[q - 1]);
                        }
                        assert(is_header_at(c, q));
                        assert(false);
                    } else {
                        assert(res.subrange(q, q + 10)[i - q] == res[i as int]);
                        assert(res[i as int] == s[0]);
                        assert(hl[i - q] == '[');
                        assert(false);
                    }
                }
            }
            lemma_header_pos_exact(res, 0, i);
            assert forall|q: int|
                i + 1 <= q < e2 implies !((#[trigger] res[q - 1]) == '\n' && res[q] == '[') by {
                let p = q - i;
                assert(res[q] == s[p]);
                assert(res[q - 1] == s[p - 1]);
            }
            assert(e2 <= res.len());
            if e < c.len() {
                assert(res[e2 as int] == c[e as int]);
                assert(res[e2 - 1] == s[s.len() - 1]);
            }
            lemma_section_end_exact(res, (i + 1) as nat, e2 as nat);
            assert(spec_sync(res, tags) == res.take(i as int) + s + res.skip(e2 as int));
            assert(res.take(i as int) =~= c.take(i as int));
            assert(res.skip(e2 as int) =~= c.skip(e as int));
            assert(spec_sync(res, tags) == res);
        },
        None => {
            lemma_header_pos_from_none(c, 0);
            let res = c + "\n\n"@ + s;
            assert(spec_sync(c, tags) == res);
            let i0 = c.len() + 2;
            assert(res[c.len() as int] == '\n');
            assert(res[c.len() as int + 1] == '\n');
            assert forall|p: int| 0 <= p < s.len() implies #[trigger] res[i0 + p] == s[p] by {}
            assert(is_header_at(res, i0 as int)) by {
                assert(res.subrange(i0 as int, i0 as int + 10) =~= s.subrange(0, 10));
                assert(res[i0 - 1] == '\n');
            }
            assert forall|q: int| 0 <= q < i0 implies !is_header_at(res, q) by {
                if is_header_at(res, q) {
                    if q + 10 <= c.len() {
                        assert(res.subrange(q, q + 10) =~= c.subrange(q, q + 10));
                        if q > 0 {
                            assert(res[q - 1] == c[q - 1]);
                        }
                        assert(is_header_at(c, q));
                        assert(false);
                    } else if q < c.len() {
                        assert(res.subrange(q, q + 10)[c.len() - q] == res[c.len() as int]);
                        assert(hl[c.len() - q] == '\n');
                        assert(false);
                    } else {
                        assert(res.subrange(q, q + 10)[0] == res[q]);
                        assert(res[q] == '\n');
                        assert(false);
                    }
                }
            }
            lemma_header_pos_exact(res, 0, (i0 as nat));
            assert forall|q: int|
                i0 + 1 <= q < res.len() implies !((#[trigger] res[q - 1]) == '\n' && res[q]
                == '[') by {
                let p = q - i0;
                assert(res[q] == s[p]);
                assert(res[q - 1] == s[p - 1]);
            }
            lemma_section_end_exact(res, (i0 + 1) as nat, res.len());
            assert(spec_sync(res, tags) == res.take(i0 as int) + s + res.skip(res.len() as int));
            assert(res.take(i0 as int) =~= c + "\n\n"@);
            assert(res.skip(res.len() as int) =~= Seq::<char>::empty());
            assert(res.take(i0 as int) + s + res.skip(res.len() as int) =~= res);
            assert(spec_sync(res, tags) == res);
        },
    }
}

/// Decides whether the feature-list header starts a line at `i`.
fn header_at(c: &str, i: usize, n: usize) -> (r: bool)
    requires
        n == c@.len(),
        i < n,
    ensures
        r == is_header_at(c@, i as int),
{
    let pat = "[features]";
    proof {
        reveal_strlit("[features]");
    }
    if i > 0 {
        if c.get_char(i - 1) != '\n' {
            return false;
        }
    }
    if n - i < 10 {
        assert(i + header_lit().len() > c@.len());
        return false;
    }
    let mut k: usize = 0;
    while k < 10
        invariant
            k <= 10,
            i + 10 <= n,
            n == c@.len(),
            pat@ == header_lit(),
            pat@.len() == 10,
            forall|q: int| 0 <= q < k ==> c@[i + q] == header_lit()[q],
        decreases 10 - k,
    {
        if c.get_char(i + k) != pat.get_char(k) {
            proof {
                if c@.subrange(i as int, i as int + 10) == header_lit() {
                    assert(c@.subrange(i as int, i as int + 10)[k as int] == c@[i + k]);
                }
            }
            return false;
        }
        k += 1;
    }
    proof {
        assert(c@.subrange(i as int, i as int + 10) =~= header_lit());
    }
    true
}

/// Finds the first feature-list header line, if any.
fn find_header(c: &str, n: usize) -> (r: Option<usize>)
    requires
        n == c@.len(),
    ensures
        match r {
            Some(i) => header_pos(c@) == Some(i as nat) && i < n,
            None => header_pos(c@) == None::<nat>,
        },
{
    let mut i: usize = 0;
    while i < n
        invariant
            i <= n,
            n == c@.len(),
            header_pos(c@) == header_pos_from(c@, i as nat),
        decreases n - i,
    {
        if header_at(c, i, n) {
            return Some(i);
        }
        proof {
            assert(header_pos_from(c@, i as nat) == header_pos_from(c@, (i + 1) as nat));
        }
        i += 1;
    }
    None
}

/// Finds the end of the section that starts before `from`.
fn find_section_end(c: &str, from: usize, n: usize) -> (r: usize)
    requires
        n == c@.len(),
        1 <= from <= n,
    ensures
        r == section_end_from(c@, from as nat),
        from <= r <= n,
{
    proof {
        lemma_section_end_bounds(c@, from as nat);
    }
    let mut k = from;
    while k < n
        invariant
            from <= k,
            1 <= k <= n,
            n == c@.len(),
            section_end_from(c@, from as nat) == section_end_from(c@, k as nat),
        decreases n - k,
    {
        if c.get_char(k) == '[' {
            if c.get_char(k - 1) == '\n' {
                return k;
            }
        }
        proof {
            assert(section_end_from(c@, k as nat) == section_end_from(c@, (k + 1) as nat));
        }
        k += 1;
    }
    n
}

/// Renders the feature-list section for the given tags.
pub fn render_features_section(tags: &Vec<String>) -> (s: String)
    ensures
        s@ == features_section(tag_views(tags@)),
{
    let ghost tvs = tag_views(tags@);
    let mut s = String::from_str("[features]\nALL = [");
    let n = tags.len();
    let mut i: usize = 0;
    while i < n
        invariant
            n == tags@.len(),
            tvs == tag_views(tags@),
            tvs.len() == n,
            i <= n,
            s@ == "[features]\nALL = ["@ + quoted_list(tvs.take(i as int)),
        decreases n - i,
    {
        if i > 0 {
            s.append(", ");
        }
        s.append("\"");
        s.append(tags[i].as_str());
        s.append("\"");
        proof {
            assert(tvs.take(i as int + 1).drop_last() =~= tvs.take(i as int));
            assert(tvs.take(i as int + 1).last() == tvs[i as int]);
            if i == 0 {
                assert(quoted_list(tvs.take(1)) == quoted(tvs[0]));
            }
            assert(s@ =~= "[features]\nALL = ["@ + quoted_list(tvs.take(i as int + 1)));
        }
        i += 1;
    }
    s.append("]\n");
    proof {
        assert(tvs.take(n as int) =~= tvs);
    }
    let ghost head = "[features]\nALL = ["@ + quoted_list(tvs) + "]\n"@;
    proof {
        assert(s@ =~= head + flag_lines(tvs.take(0)));
    }
    let mut j: usize = 0;
    while j < n
        invariant
            n == tags@.len(),
            tvs == tag_views(tags@),
            tvs.len() == n,
            j <= n,
            head == "[features]\nALL = ["@ + quoted_list(tvs) + "]\n"@,
            s@ == head + flag_lines(tvs.take(j as int)),
        decreases n - j,
    {
        s.append(tags[j].as_str());
        s.append(" = []\n");
        proof {
            assert(tvs.take(j as int + 1).drop_last() =~= tvs.take(j as int));
            assert(tvs.take(j as int + 1).last() == tvs[j as int]);
            assert(s@ =~= head + flag_lines(tvs.take(j as int + 1)));
        }
        j += 1;
    }
    proof {
        assert(tvs.take(n as int) =~= tvs);
        assert(s@ =~= features_section(tvs));
    }
    s
}

/// Synchronizes the manifest text: replaces the feature-list section where
/// one exists, appends one after a blank-line separator otherwise.
pub fn sync_features(content: &str, tags: &Vec<String>) -> (r: String)
    ensures
        r@ == spec_sync(content@, tag_views(tags@)),
{
    let n = content.unicode_len();
    let section = render_features_section(tags);
    let found = find_header(content, n);
    match found {
        Some(i) => {
            proof {
                lemma_header_pos_from_some(content@, 0, i as nat);
            }
            let j = find_section_end(content, i + 1, n);
            let mut out = String::new();
            out.append(content.substring_char(0, i));
            out.append(section.as_str());
            out.append(content.substring_char(j, n));
            proof {
                assert(content@.subrange(0, i as int) =~= content@.take(i as int));
                assert(content@.subrange(j as int, n as int) =~= content@.skip(j as int));
                assert(out@ =~= spec_sync(content@, tag_views(tags@)));
            }
            out
        },
        None => {
            let mut out = String::new();
            out.append(content);
            out.append("\n\n");
            out.append(section.as_str());
            proof {
                assert(out@ =~= spec_sync(content@, tag_views(tags@)));
            }
            out
        },
    }
}

} // verus!
