use lokal::ane::clock::iso8601_utc;
use lokal::ane::graphs::{
    check_graphs, collect_graphs, graph_shape, is_graph_file, should_migrate, sort_graphs, split_enabled,
    stale_notice, windowed_enabled, GraphShape,
};
use lokal::ane::prefill::{
    chunk_inputs, cut_chunks, first_route, pick_graph, plain_route, plan_chunked, splittable, FirstRoute,
    PlainRoute,
};
use lokal::ane::rows::{keep_past, kept_rows, put_layers, take_layers};
use lokal::ane::split::{plan_split, Rung};
use lokal::hub::GraphLocation;

#[test]
fn iso8601_matches_known_epochs() {
    assert_eq!(iso8601_utc(0), "1970-01-01T00:00:00Z");
    assert_eq!(iso8601_utc(1_000_000_000), "2001-09-09T01:46:40Z");
    assert_eq!(iso8601_utc(1_709_251_200), "2024-03-01T00:00:00Z");
}

#[test]
fn leap_days_and_year_ends_are_dates() {
    assert_eq!(iso8601_utc(951_782_400), "2000-02-29T00:00:00Z");
    assert_eq!(iso8601_utc(946_684_799), "1999-12-31T23:59:59Z");
    assert_eq!(iso8601_utc(4_107_542_400), "2100-03-01T00:00:00Z");
}

#[test]
fn later_moments_have_later_texts() {
    let moments = [0u64, 59, 60, 3599, 86_399, 86_400, 951_782_399, 951_782_400, 4_102_444_799, 253_402_300_799];
    for w in moments.windows(2) {
        let (a, b) = (iso8601_utc(w[0]), iso8601_utc(w[1]));
        assert!(a < b, "{a} {b}");
        assert_eq!((a.len(), b.len()), (20, 20));
    }
    assert_eq!(iso8601_utc(951_782_400 + 86_400), "2000-03-01T00:00:00Z");
    assert_eq!(iso8601_utc(253_402_300_799), "9999-12-31T23:59:59Z");
}

fn loc(revision: Option<&str>) -> GraphLocation {
    GraphLocation {
        dir: "/cache/o--m".to_string(),
        model: "o/m".to_string(),
        revision: revision.map(|r| r.to_string()),
    }
}

#[test]
fn graph_names_write_their_shape() {
    assert_eq!(graph_shape("prefill-512.mlmodelc"), Some(GraphShape::Plain { seq: 512 }));
    assert_eq!(graph_shape("prefill-512w1024.mlmodelc"), Some(GraphShape::Windowed { s: 512, p: 1024 }));
    assert_eq!(
        graph_shape("prefill-f12-256w0.mlmodelc"),
        Some(GraphShape::Front { s: 256, p: 0, layers: 12 })
    );
    assert_eq!(graph_shape("prefill-f12.mlmodelc"), None);
    assert_eq!(graph_shape("prefill-x.mlmodelc"), None);
    assert!(is_graph_file("prefill-x.mlmodelc") && !is_graph_file("prefill-512.mlpackage"));
}

#[test]
fn the_first_directory_provides_a_graph() {
    let files = vec![
        (0, "prefill-1024.mlmodelc".to_string()),
        (0, "notes.txt".to_string()),
        (1, "prefill-1024.mlmodelc".to_string()),
        (1, "prefill-512.mlmodelc".to_string()),
        (1, "prefill-f2-64w128.mlmodelc".to_string()),
        (1, "prefill-f2-64w0.mlmodelc".to_string()),
        (1, "prefill-64w64.mlmodelc".to_string()),
    ];
    let found = collect_graphs(&files);
    assert_eq!(found.len(), 5);
    assert_eq!(found[0].dir, 0);
    let set = sort_graphs(&found);
    let seqs: Vec<GraphShape> = set.plain.iter().map(|g| g.shape).collect();
    assert_eq!(seqs, vec![GraphShape::Plain { seq: 512 }, GraphShape::Plain { seq: 1024 }]);
    assert_eq!(set.front[0].shape, GraphShape::Front { s: 64, p: 0, layers: 2 });
    assert_eq!(set.windowed.as_ref().unwrap().name, "prefill-64w64.mlmodelc");
    assert!(check_graphs(&set, false, &loc(None), "/m", &vec![]).is_ok());
}

#[test]
fn missing_graphs_say_where_was_searched() {
    let set = sort_graphs(&vec![]);
    assert!(check_graphs(&set, true, &loc(None), "/m", &vec![]).is_ok());
    let err = check_graphs(&set, false, &loc(None), "/m", &vec!["a".to_string(), "b".to_string()]).unwrap_err();
    assert_eq!(
        err,
        "the hybrid backend has no prefill graphs for o/m\n  searched: /cache/o--m  (lokal graph cache)\n            \
         /m  (model directory)\n  build them once with:  ./run.sh export-hybrid o/m\n  graphs exist for: a, b"
    );
}

#[test]
fn graphs_of_another_revision_are_refused() {
    assert!(stale_notice(&None, &loc(Some("b"))).is_none());
    assert!(stale_notice(&Some("a".to_string()), &loc(None)).is_none());
    assert!(stale_notice(&Some("b".to_string()), &loc(Some("b"))).is_none());
    let notice = stale_notice(&Some("a".to_string()), &loc(Some("b"))).unwrap();
    assert!(notice.contains("revision a") && notice.contains("resolves to b"), "{notice}");
}

#[test]
fn switches_read_their_settings() {
    assert!(split_enabled(None) && split_enabled(Some("1")) && !split_enabled(Some("0")));
    assert!(!windowed_enabled(None) && !windowed_enabled(Some("0")) && !windowed_enabled(Some("")));
    assert!(windowed_enabled(Some("1")));
    assert!(should_migrate(1, 0) && !should_migrate(0, 0) && !should_migrate(1, 1));
}

#[test]
fn prompts_take_their_route() {
    assert_eq!(first_route(63, true), FirstRoute::Metal);
    assert_eq!(first_route(64, true), FirstRoute::Split);
    assert_eq!(first_route(64, false), FirstRoute::Plain);
    assert_eq!(plain_route(1000, Some(32), &vec![512], None), PlainRoute::Graph { index: 0, rows: 32 });
    let seqs = vec![512usize, 1024];
    assert_eq!(plain_route(300, None, &seqs, None), PlainRoute::Graph { index: 0, rows: 299 });
    assert_eq!(plain_route(1025, None, &seqs, None), PlainRoute::Graph { index: 1, rows: 1024 });
    assert_eq!(plain_route(1100, None, &seqs, None), PlainRoute::Metal);
    assert_eq!(plain_route(1100, None, &seqs, Some((512, 1024))), PlainRoute::Chunked { rows: 1099 });
    assert_eq!(plain_route(9000, None, &seqs, Some((512, 1024))), PlainRoute::Chunked { rows: 1536 });
    assert_eq!(plain_route(300, None, &vec![], None), PlainRoute::Metal);
    assert_eq!(pick_graph(&seqs, 512), Some(0));
    assert_eq!(pick_graph(&seqs, 513), Some(1));
    assert_eq!(pick_graph(&seqs, 5000), Some(1));
    assert_eq!(pick_graph(&vec![], 1), None);
    assert_eq!((splittable(100, None), splittable(100, Some(40)), splittable(30, Some(40))), (100, 40, 30));
}

#[test]
fn rows_are_cut_into_chunks() {
    assert_eq!(cut_chunks(0, 10, 4), vec![(0, 4), (4, 4), (8, 2)]);
    assert_eq!(cut_chunks(3, 3, 4), vec![]);
    assert_eq!(plan_chunked(20, 8, 6), (8, vec![(8, 6), (14, 6)]));
    let c = chunk_inputs(&[5, 6], 3, 4, 5);
    assert_eq!(c.ids, vec![5, 6, 0, 0]);
    assert_eq!(c.valid, vec![true, true, true, false, false]);
}

fn rung(graph: usize, s: usize, p: usize, layers: usize) -> Rung {
    Rung { graph, s, p, layers }
}

#[test]
fn a_split_takes_the_widest_stride_that_pays() {
    let front = vec![rung(0, 64, 0, 4), rung(1, 64, 512, 4), rung(2, 256, 0, 4), rung(3, 256, 1024, 4)];
    let plan = plan_split(&front, 512, 800).unwrap();
    assert_eq!((plan.s, plan.layers, plan.p_max, plan.span), (256, 4, 1024, 800));
    let cut: Vec<(usize, usize, usize)> =
        plan.chunks.iter().map(|c| (c.pos, c.n, plan.rungs[c.rung].graph)).collect();
    assert_eq!(cut, vec![(0, 256, 2), (256, 256, 3), (512, 256, 3), (768, 32, 3)]);
    // Too few chunks of the wide stride: the narrow one.
    assert_eq!(plan_split(&front, 512, 300).unwrap().s, 64);
    // No stride fits the scratch.
    assert!(plan_split(&front, 32, 800).is_none());
}

#[test]
fn rows_move_between_layouts() {
    // Two layers of three rows, one number each.
    let src = [1, 2, 3, 11, 12, 13];
    assert_eq!(take_layers(&src, 2, 3, 2), vec![1, 2, 11, 12]);
    let mut dst = vec![0; 8];
    put_layers(&mut dst, &[1, 2, 11, 12], 2, 4, 1, 2, 2);
    assert_eq!(dst, vec![0, 1, 2, 0, 0, 11, 12, 0]);
    assert_eq!((kept_rows(4, 3, 2), kept_rows(4, 4, 2), kept_rows(4, 0, 2)), (1, 0, 2));
    let mut past = vec![0; 8];
    keep_past(&mut past, &[1, 2, 11, 12], 2, 4, 3, 2, 1);
    assert_eq!(past, vec![0, 0, 0, 1, 0, 0, 0, 11]);
}
