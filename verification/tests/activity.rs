use studio_backend::components_catalog::activity::{
    days_before, gear_segment, index_of, normalize_repo, plan_requests, week_starts,
    CatalogueEntry, MAX_COMPONENTS, REPO_LIMIT,
};
use studio_backend::insight::port::{
    DeliveryPage, DeliveryPoint, DeliveryTotals, PullRequestPage, PullRequestTotals,
};

// ---- naming a repository --------------------------------------------

#[test]
fn a_github_url_reduces_to_owner_and_name() {
    for url in [
        "https://github.com/constructorfabric/gears-rust",
        "https://github.com/constructorfabric/gears-rust.git",
        "https://github.com/constructorfabric/gears-rust/",
        "  https://www.github.com/constructorfabric/gears-rust  ",
        "ssh://github.com/constructorfabric/gears-rust",
    ] {
        assert_eq!(
            normalize_repo(Some(url)).as_deref(),
            Some("constructorfabric/gears-rust"),
            "{url}"
        );
    }
}

#[test]
fn anything_that_is_not_a_repository_is_refused_rather_than_guessed() {
    for url in [
        "",
        "   ",
        "github.com",
        "https://github.com/constructorfabric",
        "https://github.com/owner/na me",
        "https://github.com//gears-rust",
        "https://gitlab.com/group/sub/repo",
    ] {
        assert_eq!(normalize_repo(Some(url)), None, "{url}");
    }
    assert_eq!(normalize_repo(None), None);
}

// ---- naming a directory ----------------------------------------------

#[test]
fn a_crate_name_strips_to_the_directory_it_publishes_from() {
    assert_eq!(gear_segment("cf-gears-api-gateway"), "api-gateway");
    assert_eq!(gear_segment("cf-studio-backend"), "studio-backend");
    assert_eq!(gear_segment("graph-storage"), "graph-storage");
}

#[test]
fn the_longer_prefix_is_stripped_first() {
    assert_eq!(gear_segment("cf-gears-x"), "x");
}

// ---- planning ---------------------------------------------------------

fn gear(name: &str, repo: &str) -> CatalogueEntry {
    CatalogueEntry {
        name: Some(name.to_owned()),
        repository: Some(repo.to_owned()),
    }
}

#[test]
fn the_catalogue_is_grouped_by_repository() {
    let plan = plan_requests(&[
        gear("cf-gears-a", "https://github.com/cf/one"),
        gear("cf-gears-b", "https://github.com/cf/two"),
        gear("cf-gears-c", "https://github.com/cf/one"),
    ]);
    assert_eq!(plan.len(), 2);
    assert_eq!(plan[0].repository, "cf/one");
    assert_eq!(
        plan[0].components,
        vec![
            ("cf-gears-a".to_owned(), "a".to_owned()),
            ("cf-gears-c".to_owned(), "c".to_owned())
        ]
    );
}

#[test]
fn a_component_with_no_usable_repository_is_left_out() {
    let plan = plan_requests(&[
        gear("cf-gears-a", "https://github.com/cf/one"),
        CatalogueEntry {
            name: Some("cf-gears-b".to_owned()),
            repository: None,
        },
        CatalogueEntry {
            name: None,
            repository: Some("https://github.com/cf/one".to_owned()),
        },
        gear("  ", "https://github.com/cf/one"),
    ]);
    assert_eq!(plan.len(), 1);
    assert_eq!(plan[0].components.len(), 1);
}

#[test]
fn two_crates_that_strip_to_the_same_directory_do_not_share_its_numbers() {
    let plan = plan_requests(&[
        gear("cf-gears-api", "https://github.com/cf/one"),
        gear("cf-api", "https://github.com/cf/one"),
    ]);
    assert_eq!(
        plan[0].components,
        vec![
            ("cf-gears-api".to_owned(), "api".to_owned()),
            ("cf-api".to_owned(), "cf-api".to_owned())
        ]
    );
}

#[test]
fn only_the_busiest_repositories_are_queried() {
    let mut components = Vec::new();
    for i in 0..4 {
        for j in 0..=i {
            components.push(gear(
                &format!("g{i}-{j}"),
                &format!("https://github.com/cf/r{i}"),
            ));
        }
    }
    let plan = plan_requests(&components);
    assert_eq!(plan.len(), REPO_LIMIT);
    let repos: Vec<&str> = plan.iter().map(|p| p.repository.as_str()).collect();
    assert_eq!(repos, vec!["cf/r3", "cf/r2", "cf/r1"]);
}

#[test]
fn one_repository_declares_at_most_the_cap() {
    let components: Vec<CatalogueEntry> = (0..MAX_COMPONENTS + 25)
        .map(|i| gear(&format!("g{i}"), "https://github.com/cf/one"))
        .collect();
    let plan = plan_requests(&components);
    assert_eq!(plan[0].components.len(), MAX_COMPONENTS);
}

#[test]
fn equally_busy_repositories_are_ordered_by_name() {
    let plan = plan_requests(&[
        gear("cf-gears-a", "https://github.com/cf/zeta"),
        gear("cf-gears-b", "https://github.com/cf/alpha"),
    ]);
    let repos: Vec<&str> = plan.iter().map(|p| p.repository.as_str()).collect();
    assert_eq!(repos, vec!["cf/alpha", "cf/zeta"]);
}

#[test]
fn a_name_is_trimmed_before_it_is_planned() {
    let plan = plan_requests(&[gear("  cf-gears-a ", "https://github.com/cf/one")]);
    assert_eq!(
        plan[0].components,
        vec![("cf-gears-a".to_owned(), "a".to_owned())]
    );
}

// ---- buckets ----------------------------------------------------------

#[test]
fn buckets_start_on_the_monday_at_or_before_the_window() {
    let weeks = week_starts("2026-09-23", "2026-10-06");
    assert_eq!(weeks, vec!["2026-09-21", "2026-09-28", "2026-10-05"]);
}

#[test]
fn a_monday_is_its_own_bucket_start() {
    assert_eq!(week_starts("2026-09-21", "2026-09-21"), vec!["2026-09-21"]);
}

#[test]
fn a_window_that_does_not_parse_asks_for_no_buckets() {
    for (from, to) in [
        ("", "2026-10-06"),
        ("2026-9-23", "2026-10-06"),
        ("2026-13-01", "2026-10-06"),
        ("2026-02-30", "2026-10-06"),
        ("2026-10-06", "2026-09-23"),
    ] {
        assert!(week_starts(from, to).is_empty(), "{from}..{to}");
    }
}

#[test]
fn a_leap_day_is_a_day() {
    assert_eq!(week_starts("2028-02-29", "2028-02-29"), vec!["2028-02-28"]);
}

#[test]
fn a_long_window_is_capped_at_eighty_bars() {
    let weeks = week_starts("1990-01-01", "2026-01-01");
    assert_eq!(weeks.len(), 80);
    assert_eq!(weeks[0], "1990-01-01");
    assert_eq!(weeks[1], "1990-01-08");
}

#[test]
fn a_century_that_is_not_a_leap_year_has_no_leap_day() {
    assert!(week_starts("1900-02-29", "1900-03-01").is_empty());
    assert_eq!(week_starts("2000-02-29", "2000-02-29"), vec!["2000-02-28"]);
}

#[test]
fn a_window_ending_today_starts_days_minus_one_before_it() {
    // 2026-09-23T12:00:00Z.
    let now = 1_790_164_800u64;
    assert_eq!(days_before(now, 1), "2026-09-23");
    assert_eq!(days_before(now, 0), "2026-09-23");
    assert_eq!(days_before(now, 30), "2026-08-25");
    assert_eq!(days_before(0, 1), "1970-01-01");
}

// ---- joining the answers ---------------------------------------------

fn totals(component: &str, commits: u64) -> DeliveryTotals {
    DeliveryTotals {
        component: component.to_owned(),
        commits,
        files_changed: 1,
        lines_added: 10,
        lines_removed: 2,
        authors: 1,
    }
}

fn page(totals_in: Vec<DeliveryTotals>, series: Vec<DeliveryPoint>) -> DeliveryPage {
    DeliveryPage {
        from: "2026-09-21".to_owned(),
        to: "2026-10-04".to_owned(),
        truncated: false,
        totals: totals_in,
        series,
    }
}

#[test]
fn a_quiet_week_is_a_zero_rather_than_a_missing_bar() {
    let pages = [page(
        vec![totals("api", 3)],
        vec![DeliveryPoint {
            component: "api".to_owned(),
            date: "2026-09-28".to_owned(),
            commits: 3,
            lines_added: 10,
            lines_removed: 2,
        }],
    )];
    let (rows, _, window) = index_of(&pages, &[]);
    assert_eq!(
        window,
        Some(("2026-09-21".to_owned(), "2026-10-04".to_owned()))
    );
    let dates: Vec<&str> = rows[0].points.iter().map(|p| p.date.as_str()).collect();
    assert_eq!(dates, vec!["2026-09-21", "2026-09-28"]);
    assert_eq!(rows[0].points[0].commits, 0);
    assert_eq!(rows[0].points[1].commits, 3);
}

#[test]
fn a_gear_with_no_pull_requests_carries_none_rather_than_three_zeros() {
    let (rows, _, _) = index_of(&[page(vec![totals("api", 1)], vec![])], &[]);
    assert!(rows[0].pull_requests.is_none());
}

fn pr(component: &str, open: u64) -> PullRequestTotals {
    PullRequestTotals {
        component: component.to_owned(),
        open,
        merged: 0,
        closed: 0,
        total: open,
        merged_cycle_hours_bits: None,
        authors: 1,
    }
}

#[test]
fn a_pull_request_for_a_gear_that_did_not_move_is_dropped() {
    let prs = [PullRequestPage {
        truncated: false,
        totals: vec![pr("ghost", 1)],
    }];
    let (rows, _, _) = index_of(&[page(vec![totals("api", 1)], vec![])], &prs);
    assert_eq!(rows.len(), 1);
    assert_eq!(rows[0].gear, "api");
    assert!(rows[0].pull_requests.is_none());
}

#[test]
fn a_capped_page_anywhere_makes_the_whole_answer_a_prefix() {
    let mut capped = page(vec![totals("api", 1)], vec![]);
    capped.truncated = true;
    let (_, truncated, _) = index_of(&[capped], &[]);
    assert!(truncated);

    let prs = [PullRequestPage {
        truncated: true,
        totals: Vec::new(),
    }];
    let (_, truncated, _) = index_of(&[page(vec![totals("api", 1)], vec![])], &prs);
    assert!(truncated);

    let (_, truncated, _) = index_of(&[page(vec![totals("api", 1)], vec![])], &[]);
    assert!(!truncated);
}

#[test]
fn a_later_pull_request_row_overwrites_an_earlier_one() {
    let prs = [
        PullRequestPage {
            truncated: false,
            totals: vec![pr("api", 1)],
        },
        PullRequestPage {
            truncated: false,
            totals: vec![pr("api", 4)],
        },
    ];
    let (rows, _, _) = index_of(&[page(vec![totals("api", 1)], vec![])], &prs);
    assert_eq!(rows[0].pull_requests.as_ref().map(|p| p.open), Some(4));
}

#[test]
fn an_empty_window_names_no_window() {
    let mut p = page(vec![totals("api", 1)], vec![]);
    p.from = String::new();
    let (rows, _, window) = index_of(&[p], &[]);
    assert_eq!(window, None);
    assert!(rows[0].points.is_empty());
    let (rows, truncated, window) = index_of(&[], &[]);
    assert!(rows.is_empty());
    assert!(!truncated);
    assert_eq!(window, None);
}
