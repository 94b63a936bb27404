//! The text of the Markdown wiki projection: page slugs, the analysis page
//! written for a query, index entries and the append-once rule of the
//! index and log files.
use vstd::prelude::*;
use crate::text::{
    ascii_lower, ascii_lower_char, chars_of, contains_seq, has_sub, is_ascii_alnum,
    is_ascii_alnum_char, occurs_at, owned, push_str,
};
use crate::ids::{id_text, ClaimId};
use crate::claim::Claim;

verus! {

// ---------------------------------------------------------------------------
// Slugs
// ---------------------------------------------------------------------------

/// The slug before its dashes are trimmed: ASCII letters and digits are
/// kept (lowercased), every run of other characters becomes one `-`.
pub open spec fn slug_raw(s: Seq<char>) -> Seq<char>
    decreases s.len(),
{
    if s.len() == 0 {
        Seq::empty()
    } else {
        let r = slug_raw(s.drop_last());
        let c = s.last();
        if is_ascii_alnum(c) {
            r.push(ascii_lower(c))
        } else if r.len() > 0 && r.last() == '-' {
            r
        } else {
            r.push('-')
        }
    }
}

pub open spec fn trim_dash_start(s: Seq<char>) -> Seq<char>
    decreases s.len(),
{
    if s.len() > 0 && s[0] == '-' {
        trim_dash_start(s.drop_first())
    } else {
        s
    }
}

pub open spec fn trim_dash_end(s: Seq<char>) -> Seq<char>
    decreases s.len(),
{
    if s.len() > 0 && s.last() == '-' {
        trim_dash_end(s.drop_last())
    } else {
        s
    }
}

/// The slug of a title: `slug_raw` with dashes trimmed at both ends, or
/// `untitled` when nothing is left.
pub open spec fn slug_of(s: Seq<char>) -> Seq<char> {
    let t = trim_dash_end(trim_dash_start(slug_raw(s)));
    if t.len() == 0 {
        "untitled"@
    } else {
        t
    }
}

/// A character that may stand in a slug.
pub open spec fn slug_char(c: char) -> bool {
    ('a' <= c && c <= 'z') || ('0' <= c && c <= '9') || c == '-'
}

/// A well-formed slug: not empty, lowercase ASCII letters, digits and
/// single dashes, with no dash at either end.
pub open spec fn is_slug(s: Seq<char>) -> bool {
    &&& s.len() > 0
    &&& forall|i: int| 0 <= i < s.len() ==> slug_char(#[trigger] s[i])
    &&& s[0] != '-'
    &&& s.last() != '-'
    &&& forall|i: int| 0 <= i < s.len() - 1 ==> !(#[trigger] s[i] == '-' && s[i + 1] == '-')
}

/// Turns a title into a file-name slug.
pub fn slugify(input: &str) -> (r: String)
    ensures
        r@ == slug_of(input@),
        is_slug(r@),
{
    let v = chars_of(input);
    let mut raw: Vec<char> = Vec::new();
    let mut last_dash = false;
    let mut i: usize = 0;
    while i < v.len()
        invariant
            i <= v.len(),
            v@ == input@,
            raw@ == slug_raw(v@.take(i as int)),
            last_dash == (raw@.len() > 0 && raw@.last() == '-'),
        decreases v.len() - i,
    {
        let ch = v[i];
        assert(v@.take(i + 1).drop_last() =~= v@.take(i as int));
        if is_ascii_alnum_char(ch) {
            let l = ascii_lower_char(ch);
            raw.push(l);
            last_dash = false;
        } else if !last_dash {
            raw.push('-');
            last_dash = true;
        }
        i = i + 1;
    }
    assert(v@.take(v.len() as int) =~= v@);
    proof {
        lemma_slug_raw_chars(v@);
    }
    let ghost whole = raw@;
    assert(raw@.subrange(0, raw.len() as int) =~= raw@);
    let mut a: usize = 0;
    while a < raw.len() && raw[a] == '-'
        invariant
            a <= raw.len(),
            trim_dash_start(whole) == trim_dash_start(raw@.subrange(a as int, raw.len() as int)),
            raw@ == whole,
        decreases raw.len() - a,
    {
        assert(raw@.subrange(a as int, raw.len() as int).drop_first() =~= raw@.subrange(
            a + 1,
            raw.len() as int,
        ));
        a = a + 1;
    }
    assert(raw@.subrange(0, raw.len() as int) =~= raw@);
    let mut b: usize = raw.len();
    while b > a && raw[b - 1] == '-'
        invariant
            a <= b <= raw.len(),
            raw@ == whole,
            trim_dash_end(trim_dash_start(whole)) == trim_dash_end(
                raw@.subrange(a as int, b as int),
            ),
        decreases b - a,
    {
        assert(raw@.subrange(a as int, b as int).drop_last() =~= raw@.subrange(a as int, b - 1));
        b = b - 1;
    }
    if a == b {
        proof {
            reveal_strlit("untitled");
        }
        return owned("untitled");
    }
    let mut out = String::new();
    let mut k = a;
    while k < b
        invariant
            a <= k <= b <= raw.len(),
            out@ == raw@.subrange(a as int, k as int),
        decreases b - k,
    {
        out.push(raw[k]);
        k = k + 1;
        assert(out@ =~= raw@.subrange(a as int, k as int));
    }
    proof {
        let t = raw@.subrange(a as int, b as int);
        assert(t[0] != '-');
        assert(t.last() != '-');
        assert forall|i: int| 0 <= i < t.len() implies slug_char(#[trigger] t[i]) by {
            assert(t[i] == whole[a + i]);
        }
        assert forall|i: int| 0 <= i < t.len() - 1 implies !(#[trigger] t[i] == '-' && t[i + 1]
            == '-') by {
            assert(t[i] == whole[a + i]);
            assert(t[i + 1] == whole[a + i + 1]);
        }
    }
    out
}

/// Every character of `slug_raw(s)` is a slug character and no two dashes are adjacent.
pub proof fn lemma_slug_raw_chars(s: Seq<char>)
    ensures
        forall|i: int| 0 <= i < slug_raw(s).len() ==> slug_char(#[trigger] slug_raw(s)[i]),
        forall|i: int|
            0 <= i < slug_raw(s).len() - 1 ==> !(#[trigger] slug_raw(s)[i] == '-' && slug_raw(
                s,
            )[i + 1] == '-'),
    decreases s.len(),
{
    if s.len() > 0 {
        let r = slug_raw(s.drop_last());
        lemma_slug_raw_chars(s.drop_last());
        let c = s.last();
        let t = slug_raw(s);
        if is_ascii_alnum(c) {
            assert(slug_char(ascii_lower(c)));
            assert(t == r.push(ascii_lower(c)));
            assert forall|i: int| 0 <= i < t.len() implies slug_char(#[trigger] t[i]) by {
                if i < r.len() {
                    assert(t[i] == r[i]);
                }
            }
            assert forall|i: int| 0 <= i < t.len() - 1 implies !(#[trigger] t[i] == '-' && t[i
                + 1] == '-') by {
                if i + 1 < r.len() {
                    assert(t[i] == r[i]);
                    assert(t[i + 1] == r[i + 1]);
                }
            }
        } else if r.len() > 0 && r.last() == '-' {
        } else {
            assert(t == r.push('-'));
            assert forall|i: int| 0 <= i < t.len() implies slug_char(#[trigger] t[i]) by {
                if i < r.len() {
                    assert(t[i] == r[i]);
                }
            }
            assert forall|i: int| 0 <= i < t.len() - 1 implies !(#[trigger] t[i] == '-' && t[i
                + 1] == '-') by {
                if i + 1 < r.len() {
                    assert(t[i] == r[i]);
                    assert(t[i + 1] == r[i + 1]);
                } else {
                    assert(t[i] == r.last());
                }
            }
        }
    }
}

/// A well-formed slug is its own `slug_raw`.
pub proof fn lemma_slug_raw_of_slug(s: Seq<char>, k: int)
    requires
        is_slug(s),
        0 <= k <= s.len(),
    ensures
        slug_raw(s.take(k)) == s.take(k),
    decreases k,
{
    if k > 0 {
        lemma_slug_raw_of_slug(s, k - 1);
        assert(s.take(k).drop_last() =~= s.take(k - 1));
        let c = s[k - 1];
        if c == '-' {
            if k >= 2 {
                assert(!(s[k - 2] == '-' && s[k - 1] == '-'));
            }
        }
        assert(s.take(k - 1).push(c) =~= s.take(k));
    }
}

/// Law: a slug is left unchanged by `slugify`, so slugifying twice is
/// the same as slugifying once.
pub proof fn law_slugify_idempotent(title: Seq<char>)
    ensures
        is_slug(slug_of(title)),
        slug_of(slug_of(title)) == slug_of(title),
{
    let s = slug_of(title);
    lemma_slug_is_slug(title);
    lemma_slug_raw_of_slug(s, s.len() as int);
    assert(s.take(s.len() as int) =~= s);
    assert(trim_dash_start(s) == s);
    assert(trim_dash_end(s) == s);
}

/// The spec-level slug is always well formed.
pub proof fn lemma_slug_is_slug(title: Seq<char>)
    ensures
        is_slug(slug_of(title)),
{
    let raw = slug_raw(title);
    lemma_slug_raw_chars(title);
    lemma_trim_dash_start_suffix(raw);
    let t0 = trim_dash_start(raw);
    lemma_trim_dash_end_prefix(t0);
    let t = trim_dash_end(t0);
    if t.len() == 0 {
        reveal_strlit("untitled");
        let u = "untitled"@;
        assert forall|i: int| 0 <= i < u.len() implies slug_char(#[trigger] u[i]) by {}
        assert forall|i: int| 0 <= i < u.len() - 1 implies !(#[trigger] u[i] == '-' && u[i + 1]
            == '-') by {}
    } else {
        let a = raw.len() - t0.len();
        assert forall|i: int| 0 <= i < t.len() implies slug_char(#[trigger] t[i]) by {
            assert(t[i] == t0[i]);
            assert(t0[i] == raw[a + i]);
        }
        assert forall|i: int| 0 <= i < t.len() - 1 implies !(#[trigger] t[i] == '-' && t[i + 1]
            == '-') by {
            assert(t[i] == raw[a + i]);
            assert(t[i + 1] == raw[a + i + 1]);
        }
    }
}

proof fn lemma_trim_dash_start_suffix(s: Seq<char>)
    ensures
        trim_dash_start(s).len() <= s.len(),
        trim_dash_start(s) == s.subrange(s.len() - trim_dash_start(s).len(), s.len() as int),
        trim_dash_start(s).len() > 0 ==> trim_dash_start(s)[0] != '-',
    decreases s.len(),
{
    if s.len() > 0 && s[0] == '-' {
        lemma_trim_dash_start_suffix(s.drop_first());
        let t = trim_dash_start(s.drop_first());
        assert(s.drop_first().subrange(s.len() - 1 - t.len(), s.len() - 1) =~= s.subrange(
            s.len() - t.len(),
            s.len() as int,
        ));
    } else {
        assert(s.subrange(0, s.len() as int) =~= s);
    }
}

proof fn lemma_trim_dash_end_prefix(s: Seq<char>)
    ensures
        trim_dash_end(s).len() <= s.len(),
        trim_dash_end(s) == s.take(trim_dash_end(s).len() as int),
        trim_dash_end(s).len() > 0 ==> trim_dash_end(s).last() != '-',
        s.len() > 0 && s[0] != '-' ==> trim_dash_end(s).len() > 0,
    decreases s.len(),
{
    if s.len() > 0 && s.last() == '-' {
        lemma_trim_dash_end_prefix(s.drop_last());
        let t = trim_dash_end(s.drop_last());
        assert(s.drop_last().take(t.len() as int) =~= s.take(t.len() as int));
    } else {
        assert(s.take(s.len() as int) =~= s);
    }
}

// ---------------------------------------------------------------------------
// Query analysis page
// ---------------------------------------------------------------------------

/// The title of the analysis page for `query`: the given title, or
/// `analysis-` followed by the slug of the query.
pub open spec fn analysis_title(query: Seq<char>, title: Option<Seq<char>>) -> Seq<char> {
    match title {
        Some(t) => t,
        None => "analysis-"@ + slug_of(query),
    }
}

/// The title that a query page gets.
pub fn analysis_page_title(query: &str, page_title: &Option<String>) -> (r: String)
    ensures
        r@ == analysis_title(
            query@,
            match page_title {
                Some(t) => Some(t@),
                None => None,
            },
        ),
{
    match page_title {
        Some(t) => t.clone(),
        None => {
            let mut s = owned("analysis-");
            let slug = slugify(query);
            push_str(&mut s, slug.as_str());
            s
        },
    }
}

/// One result line of the analysis page.
pub open spec fn result_line(text: Seq<char>, id: ClaimId) -> Seq<char> {
    "- "@ + text + " (`"@ + id_text(id.0) + "`)\n"@
}

pub open spec fn result_lines(claims: Seq<Claim>) -> Seq<char>
    decreases claims.len(),
{
    if claims.len() == 0 {
        Seq::empty()
    } else {
        result_lines(claims.drop_last()) + result_line(claims.last().text@, claims.last().id)
    }
}

/// The body of the analysis page written for `query` and its matched claims.
pub open spec fn query_page(query: Seq<char>, claims: Seq<Claim>) -> Seq<char> {
    "# Query: "@ + query + "\n\n## Results\n\n"@ + if claims.len() == 0 {
        "No claims matched.\n"@
    } else {
        result_lines(claims)
    }
}

/// Renders the analysis page written for `query` and its matched claims.
pub fn render_query_page(query: &str, claims: &Vec<Claim>) -> (r: String)
    ensures
        r@ == query_page(query@, claims@),
{
    let mut body = owned("# Query: ");
    push_str(&mut body, query);
    push_str(&mut body, "\n\n## Results\n\n");
    let ghost head = body@;
    if claims.len() == 0 {
        push_str(&mut body, "No claims matched.\n");
        return body;
    }
    let mut i: usize = 0;
    while i < claims.len()
        invariant
            i <= claims.len(),
            body@ == head + result_lines(claims@.take(i as int)),
        decreases claims.len() - i,
    {
        let claim = &claims[i];
        assert(claims@.take(i + 1).drop_last() =~= claims@.take(i as int));
        let ghost before = body@;
        push_str(&mut body, "- ");
        push_str(&mut body, claim.text.as_str());
        push_str(&mut body, " (`");
        let id = claim.id.to_string();
        push_str(&mut body, id.as_str());
        push_str(&mut body, "`)\n");
        assert(body@ =~= before + result_line(claim.text@, claim.id));
        i = i + 1;
    }
    assert(claims@.take(claims.len() as int) =~= claims@);
    body
}

/// Law: the analysis page lists every matched claim, one line each, in
/// order: with no claims it says so under the header; one claim gives the
/// header and that claim's line; and one more claim adds exactly its line
/// `- <text> (`<id>`)` at the end.
pub proof fn law_query_page_lists_every_claim(query: Seq<char>, claims: Seq<Claim>, c: Claim)
    ensures
        query_page(query, Seq::empty()) == "# Query: "@ + query + "\n\n## Results\n\n"@
            + "No claims matched.\n"@,
        query_page(query, seq![c]) == "# Query: "@ + query + "\n\n## Results\n\n"@ + "- "@ + c.text@
            + " (`"@ + id_text(c.id.0) + "`)\n"@,
        claims.len() > 0 ==> query_page(query, claims.push(c)) == query_page(query, claims) + "- "@
            + c.text@ + " (`"@ + id_text(c.id.0) + "`)\n"@,
{
    let head = "# Query: "@ + query + "\n\n## Results\n\n"@;
    let line = "- "@ + c.text@ + " (`"@ + id_text(c.id.0) + "`)\n"@;
    assert(seq![c].drop_last() =~= Seq::<Claim>::empty());
    assert(seq![c].last() == c);
    assert(result_lines(Seq::<Claim>::empty()) == Seq::<char>::empty());
    assert(result_line(c.text@, c.id) =~= line);
    assert(result_lines(seq![c]) == Seq::<char>::empty() + result_line(c.text@, c.id));
    assert(result_lines(seq![c]) =~= line);
    assert(query_page(query, seq![c]) =~= head + line);
    if claims.len() > 0 {
        assert(claims.push(c).drop_last() =~= claims);
        assert(claims.push(c).last() == c);
        assert(result_line(c.text@, c.id) =~= line);
        assert(result_lines(claims.push(c)) == result_lines(claims) + line);
        assert(query_page(query, claims.push(c)) =~= query_page(query, claims) + line);
    }
}

// ---------------------------------------------------------------------------
// Index and log files
// ---------------------------------------------------------------------------

/// The index line that links a page.
pub open spec fn index_entry(slug: Seq<char>) -> Seq<char> {
    "- [["@ + slug + "]]\n"@
}

/// The index line that links the page with the given slug.
pub fn index_line(slug: &str) -> (r: String)
    ensures
        r@ == index_entry(slug@),
{
    let mut s = owned("- [[");
    push_str(&mut s, slug);
    push_str(&mut s, "]]\n");
    s
}

/// What an append-once write leaves in a file: the content unchanged when
/// it already holds the line anywhere, else the content with the line appended.
pub open spec fn appended_once(content: Seq<char>, line: Seq<char>) -> Seq<char> {
    if has_sub(content, line) {
        content
    } else {
        content + line
    }
}

/// The new content of a file after an append-once write of `line`, or
/// `None` when the file already holds the line and stays as it is.
pub fn append_once(content: &str, line: &str) -> (r: Option<String>)
    ensures
        match r {
            Some(s) => !has_sub(content@, line@) && s@ == appended_once(content@, line@),
            None => has_sub(content@, line@),
        },
{
    let c = chars_of(content);
    let l = chars_of(line);
    if contains_seq(&c, &l) {
        None
    } else {
        let mut s = owned(content);
        push_str(&mut s, line);
        Some(s)
    }
}

/// Law: appending a line once more changes nothing.
pub proof fn law_append_once_idempotent(content: Seq<char>, line: Seq<char>)
    ensures
        appended_once(appended_once(content, line), line) == appended_once(content, line),
{
    if !has_sub(content, line) {
        let c2 = content + line;
        assert(c2.subrange(content.len() as int, (content.len() + line.len()) as int) =~= line);
        assert(occurs_at(c2, line, content.len() as int));
    }
}

} // verus!
