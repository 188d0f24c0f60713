use studio_backend::documents::spec_rows::{
    counts, in_filter, pipeline, queues_of, rows, Authored, Binding, BindingState, Candidate, Filter,
    Origin, PipelineEntry, PipelineType,
};


fn no_repo(_: &str) -> String {
    String::new()
}

fn ids(entries: &[PipelineEntry]) -> Vec<&str> {
    entries.iter().map(|e| e.id.as_str()).collect()
}

fn binding(id: &str, path: &str, state: BindingState) -> Binding {
    Binding {
        id: id.to_owned(),
        node_id: format!("node-{id}"),
        path: path.to_owned(),
        type_key: Some("prd".to_owned()),
        state,
        conforms: None,
        updated_at: "2026-09-01T00:00:00Z".to_owned(),
    }
}

fn doc(id: &str, title: &str) -> Authored {
    Authored {
        id: id.to_owned(),
        title: title.to_owned(),
        type_key: Some("prd".to_owned()),
        status: "draft".to_owned(),
        conforms: None,
        updated_at: "2026-09-01T00:00:00Z".to_owned(),
    }
}

// ---- one list out of two kinds ---------------------------------------

#[test]
fn both_origins_go_in_one_list_and_say_which_is_which() {
    let out = rows(
        &[binding("b1", "docs/prd.md", BindingState::Confirmed)],
        &[doc("d1", "Written here")],
        &[],
        &no_repo,
    );
    assert_eq!(out.len(), 2);
    let origins: Vec<Origin> = out.iter().map(|r| r.origin).collect();
    assert!(origins.contains(&Origin::Repository));
    assert!(origins.contains(&Origin::Authored));
}

#[test]
fn a_repository_row_is_named_by_its_file_and_an_authored_one_by_its_title() {
    let out = rows(
        &[binding(
            "b1",
            "docs/adr/0007-shell.md",
            BindingState::Manual,
        )],
        &[doc("d1", "Product requirements")],
        &[],
        &no_repo,
    );
    let repo = out.iter().find(|r| r.origin == Origin::Repository).unwrap();
    let authored = out.iter().find(|r| r.origin == Origin::Authored).unwrap();
    assert_eq!(repo.name, "0007-shell.md");
    assert_eq!(authored.name, "Product requirements");
}

#[test]
fn an_authored_row_has_no_path_until_it_is_committed() {
    let out = rows(&[], &[doc("d1", "Spec")], &[], &no_repo);
    assert_eq!(out[0].path, "");
}

#[test]
fn the_newest_row_comes_first() {
    let mut older = binding("b1", "a.md", BindingState::Confirmed);
    older.updated_at = "2026-08-01T00:00:00Z".to_owned();
    let mut newer = binding("b2", "b.md", BindingState::Confirmed);
    newer.updated_at = "2026-09-20T00:00:00Z".to_owned();
    let out = rows(&[older, newer], &[], &[], &no_repo);
    assert_eq!(out[0].id, "b2");
}

#[test]
fn an_unreadable_date_sorts_last_not_first() {
    // The least informative row must not take the place where the most
    // recent one belongs.
    let mut undated = binding("b1", "a.md", BindingState::Confirmed);
    undated.updated_at = String::new();
    let dated = binding("b2", "b.md", BindingState::Confirmed);
    let out = rows(&[undated, dated], &[], &[], &no_repo);
    assert_eq!(out[0].id, "b2");
    assert_eq!(out[1].id, "b1");
}

#[test]
fn an_authored_document_comes_first_within_the_same_instant() {
    let out = rows(
        &[binding("b1", "a.md", BindingState::Confirmed)],
        &[doc("d1", "Zzz")],
        &[],
        &no_repo,
    );
    assert_eq!(out[0].origin, Origin::Authored);
}

// ---- the queues -------------------------------------------------------

#[test]
fn an_authored_document_stays_out_of_the_review_queue() {
    // It was written AS a type, so there is nothing to review about what
    // it is.
    let out = rows(&[], &[doc("d1", "Spec")], &[], &no_repo);
    assert!(!in_filter(&out[0], Filter::NeedsReview));
    assert!(in_filter(&out[0], Filter::Bound));
}

#[test]
fn an_undecided_repository_file_is_in_the_review_queue() {
    for state in [BindingState::Detected, BindingState::Unknown] {
        let out = rows(&[binding("b1", "a.md", state)], &[], &[], &no_repo);
        assert!(in_filter(&out[0], Filter::NeedsReview), "{state:?}");
    }
}

#[test]
fn a_decided_file_counts_as_bound_whichever_way_it_was_decided() {
    for state in [BindingState::Confirmed, BindingState::Manual] {
        let out = rows(&[binding("b1", "a.md", state)], &[], &[], &no_repo);
        assert!(in_filter(&out[0], Filter::Bound), "{state:?}");
        assert!(!in_filter(&out[0], Filter::NeedsReview), "{state:?}");
    }
}

#[test]
fn a_rejected_file_stays_in_its_own_queue_and_out_of_the_others() {
    let out = rows(
        &[binding("b1", "a.md", BindingState::NotADocument)],
        &[],
        &[],
        &no_repo,
    );
    assert!(in_filter(&out[0], Filter::NotDocuments));
    assert!(!in_filter(&out[0], Filter::Bound));
    assert!(!in_filter(&out[0], Filter::NeedsReview));
    assert!(!in_filter(&out[0], Filter::NotScanned));
}

#[test]
fn a_rows_queues_are_the_ones_it_is_counted_in() {
    // The wire carries these per row so no caller re-derives them; they
    // must be the same answer the counts are made of.
    let out = rows(
        &[
            binding("b1", "a.md", BindingState::Detected),
            binding("b2", "b.md", BindingState::Confirmed),
            binding("b3", "c.md", BindingState::NotADocument),
        ],
        &[doc("d1", "Spec")],
        &[Candidate {
            node_id: "n9".to_owned(),
            path: "d.md".to_owned(),
        }],
        &no_repo,
    );
    for row in &out {
        let claimed = queues_of(row);
        for queue in Filter::QUEUES {
            assert_eq!(
                claimed.contains(&queue),
                in_filter(row, queue),
                "{} in {}",
                row.id,
                queue.as_str()
            );
        }
        // `All` is the total, not a queue: a row claiming it would make
        // every count wrong.
        assert!(!claimed.contains(&Filter::All));
    }
}

#[test]
fn the_counts_agree_with_the_list_they_label() {
    let out = rows(
        &[
            binding("b1", "a.md", BindingState::Detected),
            binding("b2", "b.md", BindingState::Confirmed),
            binding("b3", "c.md", BindingState::NotADocument),
        ],
        &[doc("d1", "Spec")],
        &[Candidate {
            node_id: "n9".to_owned(),
            path: "d.md".to_owned(),
        }],
        &no_repo,
    );
    let counted = counts(&out);
    for (filter, n) in &counted {
        let by_hand = out.iter().filter(|r| in_filter(r, *filter)).count();
        assert_eq!(*n as usize, by_hand, "{}", filter.as_str());
    }
    assert_eq!(
        counted
            .iter()
            .find(|(f, _)| *f == Filter::All)
            .map(|(_, n)| *n),
        Some(5)
    );
}

// ---- candidates -------------------------------------------------------

#[test]
fn an_ingested_file_nothing_has_classified_is_listed() {
    let out = rows(
        &[],
        &[],
        &[Candidate {
            node_id: "n1".to_owned(),
            path: "docs/readme.md".to_owned(),
        }],
        &no_repo,
    );
    assert_eq!(out.len(), 1);
    assert_eq!(out[0].origin, Origin::Repository);
    assert_eq!(out[0].name, "readme.md");
    assert_eq!(out[0].node_id.as_deref(), Some("n1"));
    assert_eq!(out[0].type_key, None);
}

#[test]
fn a_candidate_is_dropped_the_moment_its_file_has_a_binding() {
    // The binding is the same file one step further along; listing both
    // would count one file twice.
    let b = binding("b1", "docs/prd.md", BindingState::Confirmed);
    let out = rows(
        std::slice::from_ref(&b),
        &[],
        &[Candidate {
            node_id: b.node_id.clone(),
            path: b.path.clone(),
        }],
        &no_repo,
    );
    assert_eq!(out.len(), 1);
    assert_eq!(out[0].id, "b1");
}

#[test]
fn a_candidate_belongs_to_not_scanned_never_to_needs_review() {
    let out = rows(
        &[],
        &[],
        &[Candidate {
            node_id: "n1".to_owned(),
            path: "a.md".to_owned(),
        }],
        &no_repo,
    );
    assert!(in_filter(&out[0], Filter::NotScanned));
    assert!(!in_filter(&out[0], Filter::NeedsReview));
    assert!(!in_filter(&out[0], Filter::Bound));
}

#[test]
fn a_rows_repository_comes_from_the_node_it_was_ingested_from() {
    let repo_of = |node: &str| {
        if node == "n1" {
            "constructorfabric/studio-web".to_owned()
        } else {
            String::new()
        }
    };
    let out = rows(
        &[],
        &[doc("d1", "Authored")],
        &[Candidate {
            node_id: "n1".to_owned(),
            path: "a.md".to_owned(),
        }],
        &repo_of,
    );
    let file = out.iter().find(|r| r.origin == Origin::Repository).unwrap();
    let written = out.iter().find(|r| r.origin == Origin::Authored).unwrap();
    assert_eq!(file.repo, "constructorfabric/studio-web");
    // An authored document is not in a repository until somebody commits it.
    assert_eq!(written.repo, "");
}

// ---- the pipeline -----------------------------------------------------

fn types() -> Vec<PipelineType> {
    vec![
        PipelineType {
            key: "prd".to_owned(),
            name: "PRD".to_owned(),
            description: String::new(),
        },
        PipelineType {
            key: "adr".to_owned(),
            name: "ADR".to_owned(),
            description: String::new(),
        },
    ]
}

#[test]
fn a_repository_file_bound_to_a_type_is_a_document_of_that_type() {
    let out = pipeline(
        &types(),
        &[],
        &[binding("b1", "a.md", BindingState::Confirmed)],
    );
    assert_eq!(ids(&out[0].bound), vec!["b1"]);
    assert_eq!(out[0].total, 1);
    assert!(!out[0].untouched);
}

#[test]
fn a_scanners_guess_is_kept_out_of_the_bound_set() {
    let out = pipeline(
        &types(),
        &[],
        &[binding("b1", "a.md", BindingState::Detected)],
    );
    assert!(out[0].bound.is_empty());
    assert_eq!(ids(&out[0].proposed), vec!["b1"]);
    // Shown, but not coverage the project agreed to.
    assert_eq!(out[0].total, 0);
    assert!(!out[0].untouched);
}

#[test]
fn a_file_somebody_decided_is_not_a_document_is_ignored() {
    for state in [BindingState::NotADocument, BindingState::Unknown] {
        let out = pipeline(&types(), &[], &[binding("b1", "a.md", state)]);
        assert!(out[0].bound.is_empty(), "{state:?}");
        assert!(out[0].proposed.is_empty(), "{state:?}");
        assert!(out[0].untouched, "{state:?}");
    }
}

#[test]
fn there_is_one_row_per_declared_type_in_the_order_declared() {
    let out = pipeline(&types(), &[], &[]);
    let keys: Vec<&str> = out.iter().map(|r| r.type_key.as_str()).collect();
    assert_eq!(keys, vec!["prd", "adr"]);
}

#[test]
fn a_binding_naming_a_type_the_workspace_no_longer_declares_is_dropped() {
    // The type list is the authority on what types exist.
    let mut b = binding("b1", "a.md", BindingState::Confirmed);
    b.type_key = Some("retired".to_owned());
    let out = pipeline(&types(), &[], &[b]);
    assert_eq!(out.len(), 2);
    assert!(out.iter().all(|r| r.bound.is_empty()));
}

#[test]
fn authored_and_bound_documents_share_one_total() {
    let out = pipeline(
        &types(),
        &[doc("d1", "Spec")],
        &[binding("b1", "a.md", BindingState::Manual)],
    );
    assert_eq!(out[0].total, 2);
}

#[test]
fn an_unchecked_document_is_not_valid_rather_than_valid() {
    // Nobody has checked it, so it has not passed anything.
    let out = pipeline(&types(), &[doc("d1", "Spec")], &[]);
    assert_eq!(out[0].total, 1);
    assert_eq!(out[0].valid, 0);
}

#[test]
fn a_passing_document_counts_towards_valid_from_either_side() {
    let mut d = doc("d1", "Spec");
    d.conforms = Some(true);
    let mut b = binding("b1", "a.md", BindingState::Confirmed);
    b.conforms = Some(true);
    let mut failing = binding("b2", "b.md", BindingState::Confirmed);
    failing.conforms = Some(false);
    let out = pipeline(&types(), &[d], &[b, failing]);
    assert_eq!(out[0].valid, 2);
    assert_eq!(out[0].total, 3);
}

#[test]
fn an_unconfirmed_guess_stays_out_of_the_total_even_when_it_passes() {
    let mut guess = binding("b1", "a.md", BindingState::Detected);
    guess.conforms = Some(true);
    let out = pipeline(&types(), &[], &[guess]);
    assert_eq!(out[0].total, 0);
    assert_eq!(out[0].valid, 0);
}

#[test]
fn a_type_with_nothing_at_all_reads_as_not_started() {
    let out = pipeline(&types(), &[], &[]);
    assert!(out[1].untouched);
    assert_eq!(out[1].total, 0);
}

#[test]
fn a_value_that_is_not_a_timestamp_sorts_below_every_real_one() {
    let mut odd = binding("b1", "a.md", BindingState::Confirmed);
    odd.updated_at = "not a date".to_owned();
    let dated = binding("b2", "b.md", BindingState::Confirmed);
    let out = rows(&[odd, dated], &[], &[], &no_repo);
    assert_eq!(out[0].id, "b2");
    assert_eq!(out[1].id, "b1");
}

#[test]
fn readable_instants_compare_as_they_are_written() {
    let mut east = binding("b1", "a.md", BindingState::Confirmed);
    east.updated_at = "2026-09-01T02:00:00+03:00".to_owned();
    let mut utc = binding("b2", "b.md", BindingState::Confirmed);
    utc.updated_at = "2026-09-01T00:00:00Z".to_owned();
    let out = rows(&[east, utc], &[], &[], &no_repo);
    assert_eq!(out[0].id, "b1", "the store writes one format; the text is the order");
}
