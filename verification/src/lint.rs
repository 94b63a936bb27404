//! Lint rules of the wiki: broken wikilinks, orphan pages, stale claims
//! that no page mentions, and claims whose keyword no page mentions; and
//! the Markdown report of the issues found.
use vstd::prelude::*;
use crate::text::{
    chars_of, find_from, find_seq, has_sub, contains_seq, lemma_find_from, occurs_at, owned,
    push_str, seq_eq, split_tokens, string_of, tokens, trim, trimmed_range, unicode_lowercase,
    lowercase_chars,
};
use crate::ids::{id_text, ClaimId};
use crate::claim::Claim;

verus! {

#[derive(Clone, Copy, PartialEq, Eq, Debug, Hash, Structural)]
pub enum LintSeverity {
    Info,
    Warning,
    Error,
}

#[derive(Clone, Copy, PartialEq, Eq, Debug, Hash, Structural)]
pub enum LintIssueCode {
    BrokenWikiLink,
    OrphanPage,
    StaleClaim,
    MissingCrossReference,
}

/// One finding of the lint.
#[derive(Clone, Debug)]
pub struct LintIssue {
    pub code: LintIssueCode,
    pub severity: LintSeverity,
    pub page_title: Option<String>,
    pub claim_id: Option<ClaimId>,
    pub message: String,
}

/// The mathematical content of a lint issue.
pub struct IssueView {
    pub code: LintIssueCode,
    pub severity: LintSeverity,
    pub page_title: Option<Seq<char>>,
    pub claim_id: Option<ClaimId>,
    pub message: Seq<char>,
}

impl View for LintIssue {
    type V = IssueView;

    open spec fn view(&self) -> IssueView {
        IssueView {
            code: self.code,
            severity: self.severity,
            page_title: match self.page_title {
                Some(t) => Some(t@),
                None => None,
            },
            claim_id: self.claim_id,
            message: self.message@,
        }
    }
}

/// A Markdown page of the wiki: its slug (the file name without `.md`) and its text.
#[derive(Clone, Debug)]
pub struct PageDoc {
    pub slug: String,
    pub body: String,
}

impl View for PageDoc {
    type V = (Seq<char>, Seq<char>);

    open spec fn view(&self) -> (Seq<char>, Seq<char>) {
        (self.slug@, self.body@)
    }
}

pub open spec fn issues_view(v: Seq<LintIssue>) -> Seq<IssueView> {
    v.map_values(|i: LintIssue| i@)
}

pub open spec fn pages_view(v: Seq<PageDoc>) -> Seq<(Seq<char>, Seq<char>)> {
    v.map_values(|p: PageDoc| p@)
}

pub open spec fn texts_view(v: Seq<String>) -> Seq<Seq<char>> {
    v.map_values(|s: String| s@)
}

pub open spec fn chars_view(v: Seq<Vec<char>>) -> Seq<Seq<char>> {
    v.map_values(|s: Vec<char>| s@)
}

// ---------------------------------------------------------------------------
// Wikilinks
// ---------------------------------------------------------------------------

/// The wikilinks of a text: for every `[[` and the first `]]` after it,
/// the trimmed text between them; scanning goes on after the `]]` and
/// stops at the first `[[` that has no `]]` after it.
pub open spec fn links_of(body: Seq<char>) -> Seq<Seq<char>>
    decreases body.len(),
{
    match find_from(body, "[["@, 0) {
        None => Seq::empty(),
        Some(i) => {
            proof {
                reveal_strlit("[[");
                lemma_find_from(body, "[["@, 0);
            }
            let after = body.skip(i + 2);
            match find_from(after, "]]"@, 0) {
                None => Seq::empty(),
                Some(j) => {
                    proof {
                        reveal_strlit("]]");
                        lemma_find_from(after, "]]"@, 0);
                    }
                    seq![trim(after.take(j))] + links_of(after.skip(j + 2))
                },
            }
        },
    }
}

/// Searching in a suffix is searching in the whole from a later position.
pub proof fn lemma_find_shift(s: Seq<char>, n: Seq<char>, p: int, k: int)
    requires
        0 <= p <= s.len(),
        0 <= k,
    ensures
        find_from(s.skip(p), n, k) == match find_from(s, n, p + k) {
            Some(x) => Some(x - p),
            None => None::<int>,
        },
    decreases s.len() + 1 - (p + k),
{
    let t = s.skip(p);
    if k + n.len() > t.len() {
    } else {
        assert(t.subrange(k, k + n.len()) =~= s.subrange(p + k, p + k + n.len()));
        if occurs_at(t, n, k) {
        } else {
            lemma_find_shift(s, n, p, k + 1);
        }
    }
}

/// The wikilinks of a Markdown text (see `links_of`).
pub fn extract_links(body: &str) -> (r: Vec<String>)
    ensures
        texts_view(r@) == links_of(body@),
{
    let v = chars_of(body);
    let open = chars_of("[[");
    let close = chars_of("]]");
    let mut links: Vec<String> = Vec::new();
    let mut pos: usize = 0;
    proof {
        reveal_strlit("[[");
        reveal_strlit("]]");
    }
    assert(v@.skip(0) =~= v@);
    loop
        invariant
            v@ == body@,
            open@ == "[["@,
            close@ == "]]"@,
            open@.len() == 2,
            close@.len() == 2,
            pos <= v.len(),
            texts_view(links@) + links_of(v@.skip(pos as int)) == links_of(body@),
        decreases v.len() - pos,
    {
        let ghost rest = v@.skip(pos as int);
        proof {
            lemma_find_shift(v@, open@, pos as int, 0);
            lemma_find_from(v@, open@, pos as int);
        }
        match find_seq(&v, &open, pos) {
            None => {
                assert(links_of(rest) == Seq::<Seq<char>>::empty());
                assert(texts_view(links@) =~= texts_view(links@) + Seq::<Seq<char>>::empty());
                return links;
            },
            Some(i) => {
                let ghost after = rest.skip(i - pos + 2);
                assert(after =~= v@.skip(i + 2));
                proof {
                    lemma_find_shift(v@, close@, (i + 2) as int, 0);
                    lemma_find_from(v@, close@, (i + 2) as int);
                }
                match find_seq(&v, &close, i + 2) {
                    None => {
                        assert(links_of(rest) == Seq::<Seq<char>>::empty());
                        assert(texts_view(links@) =~= texts_view(links@) + Seq::<
                            Seq<char>,
                        >::empty());
                        return links;
                    },
                    Some(j) => {
                        let piece = trimmed_range(&v, i + 2, j);
                        let ghost jj = j - (i + 2);
                        assert(after.take(jj) =~= v@.subrange(i + 2, j as int));
                        assert(after.skip(jj + 2) =~= v@.skip(j + 2));
                        assert(links_of(rest) == seq![trim(after.take(jj))] + links_of(
                            after.skip(jj + 2),
                        ));
                        let ghost old_links = texts_view(links@);
                        links.push(string_of(&piece));
                        assert(texts_view(links@) =~= old_links.push(piece@));
                        assert(texts_view(links@) + links_of(v@.skip(j + 2)) =~= old_links + (
                        seq![piece@] + links_of(v@.skip(j + 2))));
                        pos = j + 2;
                    },
                }
            },
        }
    }
}


// ---------------------------------------------------------------------------
// The rules
// ---------------------------------------------------------------------------

pub open spec fn broken_link_issue(slug: Seq<char>, link: Seq<char>) -> IssueView {
    IssueView {
        code: LintIssueCode::BrokenWikiLink,
        severity: LintSeverity::Error,
        page_title: Some(slug),
        claim_id: None,
        message: "page contains missing wikilink [["@ + link + "]]"@,
    }
}

/// The broken-link issues of one page's links, in order.
pub open spec fn link_issues(slug: Seq<char>, links: Seq<Seq<char>>, existing: Seq<Seq<char>>) -> Seq<
    IssueView,
>
    decreases links.len(),
{
    if links.len() == 0 {
        Seq::empty()
    } else {
        let r = link_issues(slug, links.drop_last(), existing);
        if existing.contains(links.last()) {
            r
        } else {
            r.push(broken_link_issue(slug, links.last()))
        }
    }
}

/// The broken-link issues of all pages: page by page, link by link, one
/// for every link whose target is not among the existing pages.
pub open spec fn broken_issues(pages: Seq<(Seq<char>, Seq<char>)>, existing: Seq<Seq<char>>) -> Seq<
    IssueView,
>
    decreases pages.len(),
{
    if pages.len() == 0 {
        Seq::empty()
    } else {
        broken_issues(pages.drop_last(), existing) + link_issues(
            pages.last().0,
            links_of(pages.last().1),
            existing,
        )
    }
}

/// Every wikilink of every page, page by page.
pub open spec fn all_links(pages: Seq<(Seq<char>, Seq<char>)>) -> Seq<Seq<char>>
    decreases pages.len(),
{
    if pages.len() == 0 {
        Seq::empty()
    } else {
        all_links(pages.drop_last()) + links_of(pages.last().1)
    }
}

pub open spec fn slugs(pages: Seq<(Seq<char>, Seq<char>)>) -> Seq<Seq<char>> {
    pages.map_values(|p: (Seq<char>, Seq<char>)| p.0)
}

pub open spec fn orphan_issue(slug: Seq<char>) -> IssueView {
    IssueView {
        code: LintIssueCode::OrphanPage,
        severity: LintSeverity::Warning,
        page_title: Some(slug),
        claim_id: None,
        message: "page `"@ + slug + "` has no incoming wikilinks"@,
    }
}

/// One orphan issue for every distinct page slug that no wikilink names,
/// in the order the pages come.
pub open spec fn orphan_issues(pages: Seq<(Seq<char>, Seq<char>)>, referenced: Seq<Seq<char>>) -> Seq<
    IssueView,
>
    decreases pages.len(),
{
    if pages.len() == 0 {
        Seq::empty()
    } else {
        let r = orphan_issues(pages.drop_last(), referenced);
        let slug = pages.last().0;
        if slugs(pages.drop_last()).contains(slug) || referenced.contains(slug) {
            r
        } else {
            r.push(orphan_issue(slug))
        }
    }
}

/// Texts joined with a newline between each two.
pub open spec fn join_lines(texts: Seq<Seq<char>>) -> Seq<char>
    decreases texts.len(),
{
    if texts.len() == 0 {
        Seq::empty()
    } else if texts.len() == 1 {
        texts[0]
    } else {
        join_lines(texts.drop_last()) + "\n"@ + texts.last()
    }
}

/// The lowercased text of all pages, joined by newlines.
pub open spec fn page_text(pages: Seq<(Seq<char>, Seq<char>)>) -> Seq<char> {
    unicode_lowercase(join_lines(pages.map_values(|p: (Seq<char>, Seq<char>)| p.1)))
}

/// The keyword of a claim: its first alphanumeric run of at least five
/// bytes, lowercased.
pub open spec fn claim_keyword(text: Seq<char>) -> Option<Seq<char>> {
    let t = tokens(text, 5);
    if t.len() > 0 {
        Some(unicode_lowercase(t[0]))
    } else {
        None
    }
}

pub open spec fn stale_issue(id: ClaimId) -> IssueView {
    IssueView {
        code: LintIssueCode::StaleClaim,
        severity: LintSeverity::Warning,
        page_title: None,
        claim_id: Some(id),
        message: "stale claim "@ + id_text(id.0) + " is not referenced in any page"@,
    }
}

pub open spec fn xref_issue(id: ClaimId, keyword: Seq<char>) -> IssueView {
    IssueView {
        code: LintIssueCode::MissingCrossReference,
        severity: LintSeverity::Info,
        page_title: None,
        claim_id: Some(id),
        message: "claim "@ + id_text(id.0) + " has no page cross-reference for keyword `"@ + keyword
            + "`"@,
    }
}

/// The issues of one claim: stale and not mentioned by id in the page
/// text; then, its keyword not found in the page text.
pub open spec fn claim_issues_one(c: Claim, text: Seq<char>) -> Seq<IssueView> {
    (if c.stale && !has_sub(text, id_text(c.id.0)) {
        seq![stale_issue(c.id)]
    } else {
        Seq::empty()
    }) + match claim_keyword(c.text@) {
        Some(k) => if has_sub(text, k) {
            Seq::empty()
        } else {
            seq![xref_issue(c.id, k)]
        },
        None => Seq::empty(),
    }
}

pub open spec fn claim_issues(claims: Seq<Claim>, text: Seq<char>) -> Seq<IssueView>
    decreases claims.len(),
{
    if claims.len() == 0 {
        Seq::empty()
    } else {
        claim_issues(claims.drop_last(), text) + claim_issues_one(claims.last(), text)
    }
}

/// All issues of a wiki: broken links, then orphan pages, then claim issues.
pub open spec fn lint_issues(
    pages: Seq<(Seq<char>, Seq<char>)>,
    existing: Seq<Seq<char>>,
    claims: Seq<Claim>,
) -> Seq<IssueView> {
    broken_issues(pages, existing) + orphan_issues(pages, all_links(pages)) + claim_issues(
        claims,
        page_text(pages),
    )
}

fn text_in(list: &Vec<String>, item: &Vec<char>) -> (r: bool)
    ensures
        r == texts_view(list@).contains(item@),
{
    let mut i: usize = 0;
    while i < list.len()
        invariant
            i <= list.len(),
            forall|k: int| 0 <= k < i ==> list@[k]@ != item@,
        decreases list.len() - i,
    {
        let c = chars_of(list[i].as_str());
        if seq_eq(&c, item) {
            assert(texts_view(list@)[i as int] == item@);
            return true;
        }
        i = i + 1;
    }
    assert(!texts_view(list@).contains(item@)) by {
        if texts_view(list@).contains(item@) {
            let k = choose|k: int| 0 <= k < texts_view(list@).len() && texts_view(list@)[k] == item@;
            assert(list@[k]@ == item@);
        }
    }
    false
}

fn chars_in(list: &Vec<Vec<char>>, item: &Vec<char>) -> (r: bool)
    ensures
        r == chars_view(list@).contains(item@),
{
    let mut i: usize = 0;
    while i < list.len()
        invariant
            i <= list.len(),
            forall|k: int| 0 <= k < i ==> list@[k]@ != item@,
        decreases list.len() - i,
    {
        if seq_eq(&list[i], item) {
            assert(chars_view(list@)[i as int] == item@);
            return true;
        }
        i = i + 1;
    }
    assert(!chars_view(list@).contains(item@)) by {
        if chars_view(list@).contains(item@) {
            let k = choose|k: int| 0 <= k < chars_view(list@).len() && chars_view(list@)[k] == item@;
            assert(list@[k]@ == item@);
        }
    }
    false
}

fn broken_link_message(link: &Vec<char>) -> (r: String)
    ensures
        r@ == "page contains missing wikilink [["@ + link@ + "]]"@,
{
    let mut m = owned("page contains missing wikilink [[");
    let l = string_of(link);
    push_str(&mut m, l.as_str());
    push_str(&mut m, "]]");
    m
}

/// The broken-link issues of all pages, and every link of every page.
fn broken_link_issues(pages: &Vec<PageDoc>, existing: &Vec<String>) -> (r: (
    Vec<LintIssue>,
    Vec<Vec<char>>,
))
    ensures
        issues_view(r.0@) == broken_issues(pages_view(pages@), texts_view(existing@)),
        chars_view(r.1@) == all_links(pages_view(pages@)),
{
    let mut issues: Vec<LintIssue> = Vec::new();
    let mut referenced: Vec<Vec<char>> = Vec::new();
    let mut i: usize = 0;
    while i < pages.len()
        invariant
            i <= pages.len(),
            issues_view(issues@) == broken_issues(
                pages_view(pages@.take(i as int)),
                texts_view(existing@),
            ),
            chars_view(referenced@) == all_links(pages_view(pages@.take(i as int))),
        decreases pages.len() - i,
    {
        let page = &pages[i];
        let links = extract_links(page.body.as_str());
        let ghost lv = texts_view(links@);
        let ghost before_issues = issues_view(issues@);
        let ghost before_refs = chars_view(referenced@);
        let mut k: usize = 0;
        while k < links.len()
            invariant
                k <= links.len(),
                lv == texts_view(links@),
                issues_view(issues@) == before_issues + link_issues(
                    page.slug@,
                    lv.take(k as int),
                    texts_view(existing@),
                ),
                chars_view(referenced@) == before_refs + lv.take(k as int),
            decreases links.len() - k,
        {
            let link = chars_of(links[k].as_str());
            assert(lv.take(k + 1).drop_last() =~= lv.take(k as int));
            assert(lv.take(k + 1).last() == link@);
            let ghost old_refs = chars_view(referenced@);
            referenced.push(link.clone());
            assert(chars_view(referenced@) =~= old_refs.push(link@));
            assert(before_refs + lv.take(k + 1) =~= (before_refs + lv.take(k as int)).push(link@));
            if !text_in(existing, &link) {
                let ghost old_issues = issues_view(issues@);
                let issue = LintIssue {
                    code: LintIssueCode::BrokenWikiLink,
                    severity: LintSeverity::Error,
                    page_title: Some(page.slug.clone()),
                    claim_id: None,
                    message: broken_link_message(&link),
                };
                issues.push(issue);
                assert(issues_view(issues@) =~= old_issues.push(
                    broken_link_issue(page.slug@, link@),
                ));
            }
            k = k + 1;
        }
        assert(lv.take(links.len() as int) =~= lv);
        assert(pages_view(pages@.take(i + 1)).drop_last() =~= pages_view(pages@.take(i as int)));
        assert(pages_view(pages@.take(i + 1)).last() == page@);
        i = i + 1;
    }
    assert(pages@.take(pages.len() as int) =~= pages@);
    (issues, referenced)
}

fn orphan_message(slug: &String) -> (r: String)
    ensures
        r@ == "page `"@ + slug@ + "` has no incoming wikilinks"@,
{
    let mut m = owned("page `");
    push_str(&mut m, slug.as_str());
    push_str(&mut m, "` has no incoming wikilinks");
    m
}

/// Whether a page before position `i` has the slug `slug`.
fn slug_seen_before(pages: &Vec<PageDoc>, i: usize, slug: &Vec<char>) -> (r: bool)
    requires
        i <= pages.len(),
    ensures
        r == slugs(pages_view(pages@.take(i as int))).contains(slug@),
{
    let ghost s = slugs(pages_view(pages@.take(i as int)));
    let mut j: usize = 0;
    while j < i
        invariant
            j <= i <= pages.len(),
            s == slugs(pages_view(pages@.take(i as int))),
            forall|k: int| 0 <= k < j ==> s[k] != slug@,
        decreases i - j,
    {
        let c = chars_of(pages[j].slug.as_str());
        assert(s[j as int] == pages@[j as int].slug@);
        if seq_eq(&c, slug) {
            return true;
        }
        j = j + 1;
    }
    assert(!s.contains(slug@)) by {
        if s.contains(slug@) {
            let k = choose|k: int| 0 <= k < s.len() && s[k] == slug@;
        }
    }
    false
}

fn orphan_issues_of(pages: &Vec<PageDoc>, referenced: &Vec<Vec<char>>) -> (r: Vec<LintIssue>)
    ensures
        issues_view(r@) == orphan_issues(pages_view(pages@), chars_view(referenced@)),
{
    let mut issues: Vec<LintIssue> = Vec::new();
    let mut i: usize = 0;
    while i < pages.len()
        invariant
            i <= pages.len(),
            issues_view(issues@) == orphan_issues(
                pages_view(pages@.take(i as int)),
                chars_view(referenced@),
            ),
        decreases pages.len() - i,
    {
        let slug = chars_of(pages[i].slug.as_str());
        let ghost pv = pages_view(pages@.take(i + 1));
        assert(pv.drop_last() =~= pages_view(pages@.take(i as int)));
        assert(pv.last().0 == slug@);
        let seen = slug_seen_before(pages, i, &slug);
        if !seen && !chars_in(referenced, &slug) {
            let ghost old_issues = issues_view(issues@);
            let issue = LintIssue {
                code: LintIssueCode::OrphanPage,
                severity: LintSeverity::Warning,
                page_title: Some(pages[i].slug.clone()),
                claim_id: None,
                message: orphan_message(&pages[i].slug),
            };
            issues.push(issue);
            assert(issues_view(issues@) =~= old_issues.push(orphan_issue(slug@)));
        }
        i = i + 1;
    }
    assert(pages@.take(pages.len() as int) =~= pages@);
    issues
}

/// The lowercased text of all pages joined by newlines.
fn page_text_of(pages: &Vec<PageDoc>) -> (r: Vec<char>)
    ensures
        r@ == page_text(pages_view(pages@)),
{
    let ghost bodies = pages_view(pages@).map_values(|p: (Seq<char>, Seq<char>)| p.1);
    let mut joined: Vec<char> = Vec::new();
    let mut i: usize = 0;
    while i < pages.len()
        invariant
            i <= pages.len(),
            bodies == pages_view(pages@).map_values(|p: (Seq<char>, Seq<char>)| p.1),
            joined@ == join_lines(bodies.take(i as int)),
        decreases pages.len() - i,
    {
        let body = chars_of(pages[i].body.as_str());
        assert(bodies[i as int] == body@);
        assert(bodies.take(i + 1).drop_last() =~= bodies.take(i as int));
        if i > 0 {
            joined.push('\n');
        }
        let ghost before = joined@;
        let mut k: usize = 0;
        while k < body.len()
            invariant
                k <= body.len(),
                joined@ == before + body@.take(k as int),
            decreases body.len() - k,
        {
            joined.push(body[k]);
            k = k + 1;
            assert(joined@ =~= before + body@.take(k as int));
        }
        assert(body@.take(body.len() as int) =~= body@);
        proof {
            reveal_strlit("\n");
            if i == 0 {
                assert(bodies.take(1) =~= seq![body@]);
                assert(joined@ =~= body@);
            } else {
                assert(before =~= join_lines(bodies.take(i as int)) + "\n"@);
            }
        }
        i = i + 1;
    }
    assert(bodies.take(pages.len() as int) =~= bodies);
    lowercase_chars(&joined)
}

fn stale_message(id: ClaimId) -> (r: String)
    ensures
        r@ == "stale claim "@ + id_text(id.0) + " is not referenced in any page"@,
{
    let mut m = owned("stale claim ");
    let t = id.to_string();
    push_str(&mut m, t.as_str());
    push_str(&mut m, " is not referenced in any page");
    m
}

fn xref_message(id: ClaimId, keyword: &Vec<char>) -> (r: String)
    ensures
        r@ == "claim "@ + id_text(id.0) + " has no page cross-reference for keyword `"@ + keyword@
            + "`"@,
{
    let mut m = owned("claim ");
    let t = id.to_string();
    push_str(&mut m, t.as_str());
    push_str(&mut m, " has no page cross-reference for keyword `");
    let k = string_of(keyword);
    push_str(&mut m, k.as_str());
    push_str(&mut m, "`");
    m
}

/// The keyword of a claim's text (see `claim_keyword`).
pub fn keyword_of(text: &str) -> (r: Option<Vec<char>>)
    ensures
        match r {
            Some(k) => claim_keyword(text@) == Some(k@),
            None => claim_keyword(text@) is None,
        },
{
    let v = chars_of(text);
    let toks = split_tokens(&v, 5);
    if toks.len() > 0 {
        assert(toks@.map_values(|t: Vec<char>| t@)[0] == toks@[0]@);
        Some(lowercase_chars(&toks[0]))
    } else {
        None
    }
}

fn claim_issues_of(claims: &Vec<Claim>, text: &Vec<char>) -> (r: Vec<LintIssue>)
    ensures
        issues_view(r@) == claim_issues(claims@, text@),
{
    let mut issues: Vec<LintIssue> = Vec::new();
    let mut i: usize = 0;
    while i < claims.len()
        invariant
            i <= claims.len(),
            issues_view(issues@) == claim_issues(claims@.take(i as int), text@),
        decreases claims.len() - i,
    {
        let claim = &claims[i];
        assert(claims@.take(i + 1).drop_last() =~= claims@.take(i as int));
        let ghost before = issues_view(issues@);
        let mut added: Vec<LintIssue> = Vec::new();
        if claim.stale {
            let idt = chars_of(claim.id.to_string().as_str());
            if !contains_seq(text, &idt) {
                added.push(
                    LintIssue {
                        code: LintIssueCode::StaleClaim,
                        severity: LintSeverity::Warning,
                        page_title: None,
                        claim_id: Some(claim.id),
                        message: stale_message(claim.id),
                    },
                );
            }
        }
        let ghost first = issues_view(added@);
        match keyword_of(claim.text.as_str()) {
            Some(k) => {
                if !contains_seq(text, &k) {
                    added.push(
                        LintIssue {
                            code: LintIssueCode::MissingCrossReference,
                            severity: LintSeverity::Info,
                            page_title: None,
                            claim_id: Some(claim.id),
                            message: xref_message(claim.id, &k),
                        },
                    );
                    assert(issues_view(added@) =~= first.push(xref_issue(claim.id, k@)));
                }
            },
            None => {},
        }
        assert(issues_view(added@) =~= claim_issues_one(*claim, text@));
        let mut k: usize = 0;
        while k < added.len()
            invariant
                k <= added.len(),
                issues_view(issues@) == before + issues_view(added@).take(k as int),
            decreases added.len() - k,
        {
            let ghost old_issues = issues_view(issues@);
            issues.push(added[k].clone_issue());
            assert(issues_view(added@).take(k + 1) =~= issues_view(added@).take(k as int).push(
                added@[k as int]@,
            ));
            assert(issues_view(issues@) =~= old_issues.push(added@[k as int]@));
            k = k + 1;
        }
        assert(issues_view(added@).take(added.len() as int) =~= issues_view(added@));
        i = i + 1;
    }
    assert(claims@.take(claims.len() as int) =~= claims@);
    issues
}

impl LintIssue {
    /// A field-by-field copy of the issue.
    pub fn clone_issue(&self) -> (r: LintIssue)
        ensures
            r@ == self@,
    {
        LintIssue {
            code: self.code,
            severity: self.severity,
            page_title: match &self.page_title {
                Some(t) => Some(t.clone()),
                None => None,
            },
            claim_id: self.claim_id,
            message: self.message.clone(),
        }
    }
}

fn append_issues(out: &mut Vec<LintIssue>, more: Vec<LintIssue>)
    ensures
        issues_view(final(out)@) == issues_view(old(out)@) + issues_view(more@),
{
    let ghost start = issues_view(out@);
    let mut k: usize = 0;
    while k < more.len()
        invariant
            k <= more.len(),
            issues_view(out@) == start + issues_view(more@).take(k as int),
        decreases more.len() - k,
    {
        let ghost old_out = issues_view(out@);
        out.push(more[k].clone_issue());
        assert(issues_view(out@) =~= old_out.push(more@[k as int]@));
        assert(issues_view(more@).take(k + 1) =~= issues_view(more@).take(k as int).push(
            more@[k as int]@,
        ));
        k = k + 1;
    }
    assert(issues_view(more@).take(more.len() as int) =~= issues_view(more@));
}

/// Lints a wiki: `pages` are its Markdown pages in the order they were
/// found, `existing_targets` the link targets that have a page file, and
/// `claims` the stored claims. The issues come in the order of
/// `lint_issues`: broken links, orphan pages, then stale and
/// cross-reference issues claim by claim.
pub fn lint_pages(pages: &Vec<PageDoc>, existing_targets: &Vec<String>, claims: &Vec<Claim>) -> (r:
    Vec<LintIssue>)
    ensures
        issues_view(r@) == lint_issues(pages_view(pages@), texts_view(existing_targets@), claims@),
{
    let (broken, referenced) = broken_link_issues(pages, existing_targets);
    let orphans = orphan_issues_of(pages, &referenced);
    let text = page_text_of(pages);
    let claim_found = claim_issues_of(claims, &text);
    let mut issues: Vec<LintIssue> = Vec::new();
    append_issues(&mut issues, broken);
    append_issues(&mut issues, orphans);
    append_issues(&mut issues, claim_found);
    assert(issues_view(issues@) =~= lint_issues(
        pages_view(pages@),
        texts_view(existing_targets@),
        claims@,
    ));
    issues
}


// ---------------------------------------------------------------------------
// Laws of the broken-link rule
// ---------------------------------------------------------------------------

/// Whether a link's target is not among the existing ones.
pub open spec fn missing_link(existing: Seq<Seq<char>>) -> spec_fn(Seq<char>) -> bool {
    |l: Seq<char>| !existing.contains(l)
}

/// Whether an issue reports a broken wikilink.
pub open spec fn is_broken_issue() -> spec_fn(IssueView) -> bool {
    |i: IssueView| i.code == LintIssueCode::BrokenWikiLink
}

proof fn lemma_filter_all<A>(s: Seq<A>, p: spec_fn(A) -> bool)
    requires
        forall|i: int| 0 <= i < s.len() ==> p(#[trigger] s[i]),
    ensures
        s.filter(p) == s,
    decreases s.len(),
{
    reveal(Seq::filter);
    if s.len() > 0 {
        assert forall|i: int| 0 <= i < s.drop_last().len() implies p(#[trigger] s.drop_last()[i]) by {
            assert(s.drop_last()[i] == s[i]);
        }
        lemma_filter_all(s.drop_last(), p);
        assert(s.drop_last().push(s.last()) =~= s);
    }
}

proof fn lemma_filter_none<A>(s: Seq<A>, p: spec_fn(A) -> bool)
    requires
        forall|i: int| 0 <= i < s.len() ==> !p(#[trigger] s[i]),
    ensures
        s.filter(p).len() == 0,
    decreases s.len(),
{
    reveal(Seq::filter);
    if s.len() > 0 {
        assert forall|i: int| 0 <= i < s.drop_last().len() implies !p(#[trigger] s.drop_last()[i]) by {
            assert(s.drop_last()[i] == s[i]);
        }
        lemma_filter_none(s.drop_last(), p);
    }
}

/// Law: each wikilink of a page whose target does not exist gets its own
/// broken-link issue naming the page and the link, in link order, and no
/// other link gets one.
pub proof fn law_page_links_each_reported(slug: Seq<char>, links: Seq<Seq<char>>, existing: Seq<Seq<char>>)
    ensures
        link_issues(slug, links, existing) == links.filter(missing_link(existing)).map_values(
            |l: Seq<char>| broken_link_issue(slug, l),
        ),
    decreases links.len(),
{
    reveal(Seq::filter);
    if links.len() > 0 {
        law_page_links_each_reported(slug, links.drop_last(), existing);
        let f = links.drop_last().filter(missing_link(existing));
        if !existing.contains(links.last()) {
            assert(f.push(links.last()).map_values(|l: Seq<char>| broken_link_issue(slug, l))
                =~= f.map_values(|l: Seq<char>| broken_link_issue(slug, l)).push(
                broken_link_issue(slug, links.last()),
            ));
        }
    } else {
        assert(links.filter(missing_link(existing)).map_values(|l: Seq<char>| broken_link_issue(slug, l))
            =~= Seq::<IssueView>::empty());
    }
}

proof fn lemma_broken_issues_count(pages: Seq<(Seq<char>, Seq<char>)>, existing: Seq<Seq<char>>)
    ensures
        broken_issues(pages, existing).filter(is_broken_issue()).len() == all_links(pages).filter(
            missing_link(existing),
        ).len(),
    decreases pages.len(),
{
    if pages.len() > 0 {
        lemma_broken_issues_count(pages.drop_last(), existing);
        let page = pages.last();
        let li = link_issues(page.0, links_of(page.1), existing);
        law_page_links_each_reported(page.0, links_of(page.1), existing);
        lemma_filter_all(li, is_broken_issue());
        Seq::filter_distributes_over_add(broken_issues(pages.drop_last(), existing), li, is_broken_issue());
        Seq::filter_distributes_over_add(all_links(pages.drop_last()), links_of(page.1), missing_link(existing));
    } else {
        reveal(Seq::filter);
    }
}

proof fn lemma_orphans_not_broken(pages: Seq<(Seq<char>, Seq<char>)>, referenced: Seq<Seq<char>>)
    ensures
        forall|i: int|
            0 <= i < orphan_issues(pages, referenced).len() ==> (#[trigger] orphan_issues(pages, referenced)[i]).code
                == LintIssueCode::OrphanPage,
    decreases pages.len(),
{
    if pages.len() > 0 {
        lemma_orphans_not_broken(pages.drop_last(), referenced);
        let r = orphan_issues(pages.drop_last(), referenced);
        assert forall|i: int| 0 <= i < orphan_issues(pages, referenced).len() implies (
        #[trigger] orphan_issues(pages, referenced)[i]).code == LintIssueCode::OrphanPage by {
            if i < r.len() {
                assert(orphan_issues(pages, referenced)[i] == r[i]);
            }
        }
    }
}

proof fn lemma_claim_issues_not_broken(claims: Seq<Claim>, text: Seq<char>)
    ensures
        forall|i: int|
            0 <= i < claim_issues(claims, text).len() ==> (#[trigger] claim_issues(claims, text)[i]).code
                != LintIssueCode::BrokenWikiLink,
    decreases claims.len(),
{
    if claims.len() > 0 {
        lemma_claim_issues_not_broken(claims.drop_last(), text);
        let r = claim_issues(claims.drop_last(), text);
        let one = claim_issues_one(claims.last(), text);
        assert forall|i: int| 0 <= i < one.len() implies (#[trigger] one[i]).code
            != LintIssueCode::BrokenWikiLink by {}
        assert forall|i: int| 0 <= i < claim_issues(claims, text).len() implies (
        #[trigger] claim_issues(claims, text)[i]).code != LintIssueCode::BrokenWikiLink by {
            if i < r.len() {
                assert(claim_issues(claims, text)[i] == r[i]);
            } else {
                assert(claim_issues(claims, text)[i] == one[i - r.len()]);
            }
        }
    }
}

/// Law: lint reports exactly as many broken wikilinks as the pages have
/// links whose target does not exist, counting every such link of every
/// page.
pub proof fn law_lint_reports_each_missing_link(
    pages: Seq<(Seq<char>, Seq<char>)>,
    existing: Seq<Seq<char>>,
    claims: Seq<Claim>,
)
    ensures
        lint_issues(pages, existing, claims).filter(is_broken_issue()).len() == all_links(pages).filter(
            missing_link(existing),
        ).len(),
{
    let b = broken_issues(pages, existing);
    let o = orphan_issues(pages, all_links(pages));
    let c = claim_issues(claims, page_text(pages));
    lemma_broken_issues_count(pages, existing);
    lemma_orphans_not_broken(pages, all_links(pages));
    lemma_claim_issues_not_broken(claims, page_text(pages));
    lemma_filter_none(o, is_broken_issue());
    lemma_filter_none(c, is_broken_issue());
    Seq::filter_distributes_over_add(b, o, is_broken_issue());
    Seq::filter_distributes_over_add(b + o, c, is_broken_issue());
}

// ---------------------------------------------------------------------------
// Report
// ---------------------------------------------------------------------------

/// The name of an issue code as `{:?}` writes it.
pub open spec fn code_name(code: LintIssueCode) -> Seq<char> {
    match code {
        LintIssueCode::BrokenWikiLink => "BrokenWikiLink"@,
        LintIssueCode::OrphanPage => "OrphanPage"@,
        LintIssueCode::StaleClaim => "StaleClaim"@,
        LintIssueCode::MissingCrossReference => "MissingCrossReference"@,
    }
}

pub open spec fn report_lines(issues: Seq<IssueView>) -> Seq<char>
    decreases issues.len(),
{
    if issues.len() == 0 {
        Seq::empty()
    } else {
        report_lines(issues.drop_last()) + "- "@ + code_name(issues.last().code) + ": "@
            + issues.last().message + "\n"@
    }
}

/// The Markdown lint report: a heading, then one line per issue with its
/// code and message, or a line saying that no issue was found.
pub open spec fn report_text(issues: Seq<IssueView>) -> Seq<char> {
    "# Lint Report\n\n"@ + if issues.len() == 0 {
        "No issues detected.\n"@
    } else {
        report_lines(issues)
    }
}

fn code_label(code: LintIssueCode) -> (r: &'static str)
    ensures
        r@ == code_name(code),
{
    match code {
        LintIssueCode::BrokenWikiLink => "BrokenWikiLink",
        LintIssueCode::OrphanPage => "OrphanPage",
        LintIssueCode::StaleClaim => "StaleClaim",
        LintIssueCode::MissingCrossReference => "MissingCrossReference",
    }
}

/// Renders the Markdown lint report (see `report_text`).
pub fn render_report(issues: &Vec<LintIssue>) -> (r: String)
    ensures
        r@ == report_text(issues_view(issues@)),
{
    let mut report = owned("# Lint Report\n\n");
    if issues.len() == 0 {
        push_str(&mut report, "No issues detected.\n");
        return report;
    }
    let ghost head = report@;
    let mut i: usize = 0;
    while i < issues.len()
        invariant
            i <= issues.len(),
            report@ == head + report_lines(issues_view(issues@.take(i as int))),
        decreases issues.len() - i,
    {
        assert(issues_view(issues@.take(i + 1)).drop_last() =~= issues_view(
            issues@.take(i as int),
        ));
        let ghost before = report@;
        push_str(&mut report, "- ");
        push_str(&mut report, code_label(issues[i].code));
        push_str(&mut report, ": ");
        push_str(&mut report, issues[i].message.as_str());
        push_str(&mut report, "\n");
        assert(report@ =~= before + "- "@ + code_name(issues@[i as int].code) + ": "@
            + issues@[i as int].message@ + "\n"@);
        i = i + 1;
    }
    assert(issues@.take(issues.len() as int) =~= issues@);
    report
}

} // verus!
