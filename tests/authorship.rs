use echeo::authorship::{meets_self_threshold, AuthorshipAnalyzer, BlameLine};

fn line(sha: &str, email: Option<&str>, name: Option<&str>) -> Option<BlameLine> {
    Some(BlameLine {
        commit_sha: sha.to_string(),
        email: email.map(|e| e.to_string()),
        name: name.map(|n| n.to_string()),
    })
}

fn analyzer() -> AuthorshipAnalyzer {
    AuthorshipAnalyzer::new(Some("me@example.com".to_string()), Some("Me".to_string()))
}

#[test]
fn degenerate_range_is_wholly_the_users() {
    let info = analyzer().analyze_blame(&vec![], 5, 3);
    assert_eq!(info.total_lines, 0);
    assert_eq!(info.user_lines, 0);
    assert!(info.is_self_authored);
    assert_eq!(info.author_email, None);
    assert_eq!(info.author_name, None);
    assert_eq!(info.commit_sha, None);
    assert_eq!((info.email_agreement, info.email_lines), (0, 0));
    assert_eq!((info.name_agreement, info.name_lines), (0, 0));
}

#[test]
fn four_of_five_lines_is_self_authored() {
    let mut lines = vec![];
    for i in 0..4 {
        lines.push(line(&format!("c{}", i), Some("me@example.com"), Some("Me")));
    }
    lines.push(line("c9", Some("other@example.com"), Some("Other")));
    let info = analyzer().analyze_blame(&lines, 10, 14);
    assert_eq!((info.user_lines, info.total_lines), (4, 5));
    assert!(info.is_self_authored);
    assert_eq!(info.author_email.as_deref(), Some("me@example.com"));
    assert_eq!(info.author_name.as_deref(), Some("Me"));
    assert_eq!(info.commit_sha.as_deref(), Some("c0"));
    assert_eq!((info.email_agreement, info.email_lines), (4, 5));
}

#[test]
fn three_of_five_lines_is_not_self_authored() {
    let lines = vec![
        line("a", Some("me@example.com"), None),
        line("b", Some("x@example.com"), None),
        line("c", Some("me@example.com"), None),
        line("d", Some("y@example.com"), None),
        line("e", Some("me@example.com"), None),
    ];
    let info = analyzer().analyze_blame(&lines, 1, 5);
    assert_eq!(info.user_lines, 3);
    assert!(!info.is_self_authored);
    assert_eq!((info.name_agreement, info.name_lines), (0, 0));
    assert_eq!(info.author_name, None);
}

#[test]
fn threshold_boundary() {
    assert!(meets_self_threshold(4, 5));
    assert!(meets_self_threshold(80000, 100000));
    assert!(!meets_self_threshold(79999, 100000));
    assert!(meets_self_threshold(0, 0));
}

#[test]
fn ties_go_to_the_first_seen_author() {
    let lines = vec![
        line("1", Some("b@x"), Some("B")),
        line("2", Some("a@x"), Some("A")),
        line("3", Some("a@x"), Some("A")),
        line("4", Some("b@x"), Some("B")),
    ];
    let info = analyzer().analyze_blame(&lines, 1, 4);
    assert_eq!(info.author_email.as_deref(), Some("b@x"));
    assert_eq!(info.author_name.as_deref(), Some("B"));
    assert_eq!((info.email_agreement, info.email_lines), (2, 4));
}

#[test]
fn commit_comes_from_the_first_blamed_line() {
    let lines = vec![None, line("second", Some("z@x"), None), line("third", Some("z@x"), None)];
    let info = analyzer().analyze_blame(&lines, 7, 9);
    assert_eq!(info.commit_sha.as_deref(), Some("second"));
    assert_eq!(info.total_lines, 3);
    assert_eq!(info.email_lines, 2);
}

#[test]
fn identity_matches_by_containment() {
    let a = analyzer();
    assert!(a.is_user_author(&Some("dev+me@example.com.au".to_string()), &None));
    assert!(a.is_user_author(&None, &Some("Mel Brooks".to_string())));
    assert!(!a.is_user_author(&Some("ME@EXAMPLE.COM".to_string()), &Some("me".to_string())));
    let nobody = AuthorshipAnalyzer::new(None, None);
    assert!(!nobody.is_user_author(&Some("me@example.com".to_string()), &Some("Me".to_string())));
}
