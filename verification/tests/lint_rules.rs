use auto_llm_wiki::claim::{Claim, MemoryTier};
use auto_llm_wiki::ids::ClaimId;
use auto_llm_wiki::lint::{extract_links, lint_pages, render_report, LintIssueCode, LintSeverity, PageDoc};

fn page(slug: &str, body: &str) -> PageDoc {
    PageDoc { slug: slug.to_owned(), body: body.to_owned() }
}

#[test]
fn extract_links_trims_and_stops_at_unclosed_link() {
    assert_eq!(extract_links("see [[ alpha ]] and [[beta]] then [[gamma"), vec!["alpha", "beta"]);
    assert_eq!(extract_links("no links"), Vec::<String>::new());
    assert_eq!(extract_links("[[a]][[b]]"), vec!["a", "b"]);
    assert_eq!(extract_links("[[]]"), vec![""]);
}

#[test]
fn lint_flow_writes_report_for_broken_links() {
    let pages = vec![page("broken", "# Broken\n\nThis references [[missing-page]].\n")];
    let issues = lint_pages(&pages, &vec![], &vec![]);
    let report = render_report(&issues);

    assert!(issues.iter().any(|issue| issue.code == LintIssueCode::BrokenWikiLink));
    assert!(report.contains("missing-page"));
}

#[test]
fn lint_reports_broken_links_then_orphans_then_claims() {
    let pages = vec![
        page("a", "links to [[b]] and [[nowhere]]"),
        page("b", "links to [[a]]"),
        page("c", "nobody links here"),
    ];
    let existing = vec!["a".to_owned(), "b".to_owned()];
    let mut stale = Claim::new(ClaimId::new(), "Redis throughput tuning", MemoryTier::Semantic);
    stale.stale = true;
    let issues = lint_pages(&pages, &existing, &vec![stale.clone()]);

    let codes: Vec<LintIssueCode> = issues.iter().map(|i| i.code).collect();
    assert_eq!(
        codes,
        vec![
            LintIssueCode::BrokenWikiLink,
            LintIssueCode::OrphanPage,
            LintIssueCode::StaleClaim,
            LintIssueCode::MissingCrossReference,
        ]
    );
    assert_eq!(issues[0].message, "page contains missing wikilink [[nowhere]]");
    assert_eq!(issues[0].severity, LintSeverity::Error);
    assert_eq!(issues[0].page_title.as_deref(), Some("a"));
    assert_eq!(issues[1].message, "page `c` has no incoming wikilinks");
    assert_eq!(issues[1].severity, LintSeverity::Warning);
    assert_eq!(
        issues[2].message,
        format!("stale claim {} is not referenced in any page", stale.id.to_string())
    );
    assert_eq!(issues[2].claim_id, Some(stale.id));
    assert_eq!(
        issues[3].message,
        format!("claim {} has no page cross-reference for keyword `redis`", stale.id.to_string())
    );
    assert_eq!(issues[3].severity, LintSeverity::Info);
}

#[test]
fn lint_accepts_claims_mentioned_in_pages() {
    let claim = Claim::new(ClaimId::new(), "Redis cache", MemoryTier::Semantic);
    let mut stale = Claim::new(ClaimId::new(), "ab cd", MemoryTier::Semantic);
    stale.stale = true;
    let body = format!("About REDIS and {}", stale.id.to_string());
    let pages = vec![page("p", &body)];
    let issues = lint_pages(&pages, &vec![], &vec![claim, stale]);
    assert_eq!(issues.len(), 1);
    assert_eq!(issues[0].code, LintIssueCode::OrphanPage);
}

#[test]
fn empty_report_says_no_issues() {
    assert_eq!(render_report(&vec![]), "# Lint Report\n\nNo issues detected.\n");
    let pages = vec![page("x", "[[y]]")];
    let issues = lint_pages(&pages, &vec![], &vec![]);
    assert_eq!(
        render_report(&issues),
        "# Lint Report\n\n- BrokenWikiLink: page contains missing wikilink [[y]]\n- OrphanPage: page `x` has no incoming wikilinks\n"
    );
}
