use echeo::scraper::{BountyScraper, ScrapedBounty};
use echeo::matchmaker::{calculate_ship_velocity_score, decimal_text, EmbeddedCapability, Match, Matchmaker, Need};

fn cap(name: &str, kind: &str, language: &str, snippet: &str) -> EmbeddedCapability {
    EmbeddedCapability {
        name: name.to_string(),
        kind: kind.to_string(),
        line: 1,
        code_snippet: snippet.to_string(),
        language: language.to_string(),
        path: format!("src/{}.rs", name),
        authorship: None,
    }
}

fn need(id: &str, description: &str) -> Need {
    Matchmaker::create_sample_need(id.to_string(), format!("Task {}", id), description.to_string(), Some("$100".to_string()))
}

#[test]
fn half_similarity_with_both_boosts() {
    let c = cap("parse", "Function", "rust", "fn parse() {}");
    let n = need("n1", "Write a rust function that parses input");
    let (score, reasons) = calculate_ship_velocity_score(500_000, &c, &n);
    assert_eq!(score, 650_000);
    assert_eq!(
        reasons,
        vec![
            "Language match: rust".to_string(),
            "Type match: Function".to_string(),
            "Has existing: parse".to_string(),
        ]
    );
}

#[test]
fn moderate_similarity_with_both_boosts() {
    let c = cap("parse", "Function", "rust", "fn parse() {}");
    let n = need("n1", "Write a rust function that parses input");
    let (score, reasons) = calculate_ship_velocity_score(500_001, &c, &n);
    assert_eq!(score, 650_001);
    assert_eq!(
        reasons,
        vec![
            "Moderate semantic similarity (50%)".to_string(),
            "Language match: rust".to_string(),
            "Type match: Function".to_string(),
            "Has existing: parse".to_string(),
        ]
    );
}

#[test]
fn language_match_ignores_case() {
    let c = cap("Widget", "Component", "TypeScript", "");
    let n = need("n1", "A TYPESCRIPT component for forms");
    let (score, reasons) = calculate_ship_velocity_score(400_000, &c, &n);
    assert_eq!(score, 550_000);
    assert_eq!(reasons, vec!["Language match: TypeScript".to_string(), "Type match: Component".to_string()]);
}

#[test]
fn boosted_score_is_clamped_to_one() {
    let c = cap("Model", "Class", "python", "class Model: pass");
    let n = need("n1", "python class for a data model");
    let (score, reasons) = calculate_ship_velocity_score(980_000, &c, &n);
    assert_eq!(score, 1_000_000);
    assert_eq!(reasons[0], "High semantic similarity (98%)");
}

#[test]
fn no_boost_without_mentions() {
    let c = cap("run", "Function", "go", "");
    let n = need("n1", "Something unrelated");
    let (score, reasons) = calculate_ship_velocity_score(350_000, &c, &n);
    assert_eq!(score, 350_000);
    assert!(reasons.is_empty());
}

#[test]
fn pairs_at_the_floor_are_not_matched() {
    let mm = Matchmaker::new(vec![cap("a", "Function", "go", "x"), cap("b", "Function", "go", "x"), cap("c", "Function", "go", "x")]);
    let n = need("n1", "anything");
    let matches = mm.match_need(&n, &vec![Some(300_000), Some(300_001), None]);
    assert_eq!(matches.len(), 1);
    assert_eq!(matches[0].capability.name, "b");
    assert_eq!(matches[0].capability_index, 1);
    assert_eq!(matches[0].need.id, "n1");
}

#[test]
fn matches_are_ranked_best_first_and_stable() {
    let mm = Matchmaker::new(vec![
        cap("a", "Function", "go", ""),
        cap("b", "Function", "go", ""),
        cap("c", "Function", "go", ""),
        cap("d", "Function", "go", ""),
    ]);
    let n = need("n1", "anything");
    let matches = mm.match_need(&n, &vec![Some(400_000), Some(900_000), Some(400_000), Some(600_000)]);
    let names: Vec<&str> = matches.iter().map(|m| m.capability.name.as_str()).collect();
    assert_eq!(names, vec!["b", "d", "a", "c"]);
}

fn scores(ms: &[Match]) -> Vec<u32> {
    ms.iter().map(|m| m.score).collect()
}

#[test]
fn top_k_over_several_needs() {
    let mm = Matchmaker::new(vec![cap("a", "Function", "go", ""), cap("b", "Function", "go", "")]);
    let needs = vec![need("n1", "x"), need("n2", "y")];
    let sims = vec![vec![Some(900_000), Some(800_000)], vec![Some(400_000), Some(950_000)]];
    let top = mm.match_needs(&needs, &sims, 3);
    assert_eq!(scores(&top), vec![950_000, 900_000, 800_000]);
    assert_eq!(top[0].need.id, "n2");
    assert_eq!(top[1].need.id, "n1");
    assert_eq!(top[2].need_index, 0);
    let all = mm.match_needs(&needs, &sims, 10);
    assert_eq!(all.len(), 4);
    assert!(all.windows(2).all(|w| w[0].score >= w[1].score));
    assert!(mm.match_needs(&needs, &sims, 0).is_empty());
}

#[test]
fn one_need_can_take_every_slot() {
    let mm = Matchmaker::new(vec![cap("a", "Function", "go", ""), cap("b", "Function", "go", "")]);
    let needs = vec![need("n1", "x"), need("n2", "y")];
    let sims = vec![vec![Some(900_000), Some(850_000)], vec![Some(400_000), Some(350_000)]];
    let top = mm.match_needs(&needs, &sims, 2);
    assert_eq!(top.len(), 2);
    assert!(top.iter().all(|m| m.need.id == "n1"));
}

#[test]
fn equal_scores_keep_need_order() {
    let mm = Matchmaker::new(vec![cap("a", "Function", "go", "")]);
    let needs = vec![need("n1", "x"), need("n2", "y")];
    let sims = vec![vec![Some(600_000)], vec![Some(600_000)]];
    let top = mm.match_needs(&needs, &sims, 2);
    assert_eq!(top[0].need.id, "n1");
    assert_eq!(top[1].need.id, "n2");
}

#[test]
fn composite_keeps_the_best() {
    let mm = Matchmaker::new(vec![cap("a", "Function", "go", ""), cap("b", "Function", "go", ""), cap("c", "Function", "go", "")]);
    let n = need("n1", "x");
    let best = mm.match_need_composite(&n, &vec![Some(500_000), Some(700_000), Some(600_000)], 2);
    assert_eq!(scores(&best), vec![700_000, 600_000]);
}

#[test]
fn filter_keeps_scores_at_or_above() {
    let mm = Matchmaker::new(vec![cap("a", "Function", "go", ""), cap("b", "Function", "go", ""), cap("c", "Function", "go", "")]);
    let n = need("n1", "x");
    let matches = mm.match_need(&n, &vec![Some(500_000), Some(700_000), Some(600_000)]);
    let kept = Matchmaker::filter_by_score(matches, 600_000);
    assert_eq!(scores(&kept), vec![700_000, 600_000]);
}

#[test]
fn decimal_notation() {
    assert_eq!(decimal_text(0), "0");
    assert_eq!(decimal_text(7), "7");
    assert_eq!(decimal_text(1234), "1234");
    assert_eq!(decimal_text(u64::MAX), u64::MAX.to_string());
}

#[test]
fn scraped_bounties_become_needs() {
    let scraper = BountyScraper::new(None);
    let bounties = vec![
        ScrapedBounty {
            id: "gh-1".to_string(),
            title: "Fix parser".to_string(),
            description: "A rust function is broken".to_string(),
            bounty: Some("$500".to_string()),
            source: "github".to_string(),
            url: Some("https://example.com/1".to_string()),
            created_at: None,
        },
        ScrapedBounty {
            id: "gc-2".to_string(),
            title: "Add widget".to_string(),
            description: "component".to_string(),
            bounty: None,
            source: "gitcoin".to_string(),
            url: None,
            created_at: Some("2024-01-01".to_string()),
        },
    ];
    let needs = scraper.convert_to_needs(bounties);
    assert_eq!(needs.len(), 2);
    assert_eq!(needs[0].id, "gh-1");
    assert_eq!(needs[0].bounty.as_deref(), Some("$500"));
    assert_eq!(needs[1].title, "Add widget");
    assert_eq!(needs[1].bounty, None);
}

#[test]
fn matches_group_by_need_in_first_seen_order() {
    let mm = Matchmaker::new(vec![cap("a", "Function", "go", ""), cap("b", "Function", "go", "")]);
    let needs = vec![need("n1", "x"), need("n2", "y")];
    let sims = vec![vec![Some(900_000), Some(400_000)], vec![Some(950_000), Some(500_000)]];
    let all = mm.match_needs(&needs, &sims, 10);
    let groups = Matchmaker::group_by_need(all);
    assert_eq!(groups.len(), 2);
    assert_eq!(groups[0].need_id, "n2");
    assert_eq!(scores(&groups[0].matches), vec![950_000, 500_000]);
    assert_eq!(groups[1].need_id, "n1");
    assert_eq!(scores(&groups[1].matches), vec![900_000, 400_000]);
}
