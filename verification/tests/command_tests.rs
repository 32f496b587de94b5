use glctl::commands::fsck::{fsck_outcome, fsck_report, fsck_text, valid_generation_id};
use glctl::commands::graph::render_graph;
use glctl::commands::lineage::{lineage_text, lineage_view, LineageArgs};
use glctl::commands::list::{list_table, list_view, ListArgs};
use glctl::commands::new::{missing_parent_warning, new_generation, parent_relation, validate_new, NewRequest};
use glctl::commands::push::{push_outcome, push_status, payload_order, push_url, resolve_remote};
use glctl::commands::status::{status_summary, status_text};
use glctl::models::generation::{in_unit_interval, is_finite, total_order_after};
use glctl::models::{
    ConfigPatch, Generation, Metrics, Relation, RelationType, Retrospective, RetrospectiveCase,
    Score,
};
use glctl::storage::next_generation_id;
use glctl::time::Timestamp;
use glctl::CliError;

fn score(x: f64) -> Score {
    Score { bits: x.to_bits(), text: format!("{}", x), text_2dp: format!("{:.2}", x), text_3dp: format!("{:.3}", x) }
}

fn at(secs: i64) -> Timestamp {
    Timestamp::new(secs, 0).unwrap()
}

fn generation(id: &str, parent: Option<&str>, secs: i64, s: f64, success: bool) -> Generation {
    Generation {
        id: id.to_string(),
        parent_id: parent.map(|p| p.to_string()),
        created_at: at(secs),
        soul: format!("soul of {}", id),
        gains: vec![],
        losses: vec![],
        philosophical_note: String::new(),
        metrics: Metrics { score: score(s), execution_time_s: None, success },
        tags: vec!["t".to_string()],
        config_patch: None,
        config_patches: vec![],
        retrospective: Retrospective::empty(),
    }
}

fn relation(from: &str, to: &str, secs: i64) -> Relation {
    Relation {
        from: from.to_string(),
        to: to.to_string(),
        relation_type: RelationType::EvolvedFrom,
        created_at: at(secs),
        note: String::new(),
    }
}

const T0: i64 = 1_777_314_195; // 2026-04-27T18:23:15Z

fn request(soul: &str, parent: Option<&str>, s: f64) -> NewRequest {
    NewRequest {
        soul: soul.to_string(),
        parent: parent.map(|p| p.to_string()),
        gains: vec![],
        losses: vec![],
        note: String::new(),
        score: score(s),
        exec_time: None,
        success: true,
        tags: vec![],
        config_patch_key: None,
        config_patch_from: None,
        config_patch_to: None,
        config_patch_reason: None,
        config_patches: vec![],
        retrospective: Retrospective::empty(),
    }
}

#[test]
fn generation_ids_have_a_fixed_shape() {
    assert!(valid_generation_id("gen-20260427-001"));
    assert!(!valid_generation_id("gen-20260427-1000"));
    assert!(!valid_generation_id("gen-2026042-0001"));
    assert!(!valid_generation_id("Gen-20260427-001"));
    assert!(!valid_generation_id("gen-20260427_001"));
    assert!(!valid_generation_id("gen-2026o427-001"));
}

#[test]
fn fsck_clean_repository() {
    let gens = vec![
        generation("gen-20260427-001", None, T0, 0.5, true),
        generation("gen-20260427-002", Some("gen-20260427-001"), T0 + 1, 0.7, true),
    ];
    let rels = vec![relation("gen-20260427-001", "gen-20260427-002", T0 + 1)];
    let r = fsck_report(&gens, &rels);
    assert!(r.ok);
    assert_eq!(r.issue_count, 0);
    assert_eq!(r.generation_count, 2);
    assert_eq!(r.relation_count, 1);
    assert_eq!(fsck_outcome(&r), Ok(()));
    assert_eq!(fsck_text(&r), "ok: 2 generations, 1 relations\n");
}

#[test]
fn fsck_reports_every_kind_of_issue() {
    let mut bad = generation("bad-id", Some("gen-missing"), T0, 1.5, true);
    bad.config_patches = (0..4)
        .map(|i| ConfigPatch {
            key: format!("k{}", i),
            from_bits: 0,
            to_bits: 0,
            reason: String::new(),
        })
        .collect();
    let gens = vec![
        bad,
        generation("gen-20260427-001", None, T0, 0.5, true),
        generation("gen-20260427-002", Some("gen-20260427-001"), T0, f64::NAN, true),
        generation("gen-20260427-001", None, T0, 0.5, true),
    ];
    let rels = vec![relation("gen-20260427-009", "gen-20260427-001", T0)];
    let r = fsck_report(&gens, &rels);
    let codes: Vec<&str> = r.issues.iter().map(|i| i.code.as_str()).collect();
    assert_eq!(
        codes,
        vec![
            "invalid_generation_id",
            "invalid_score",
            "missing_parent",
            "too_many_config_patches",
            "invalid_score",
            "duplicate_generation_id",
            "missing_relation",
            "relation_missing_from",
        ]
    );
    assert!(r.issues.iter().all(|i| i.severity == "error"));
    assert_eq!(r.issues[0].message, "generation id 'bad-id' does not match gen-YYYYMMDD-NNN");
    assert_eq!(r.issues[1].message, "generation 'bad-id' has invalid score 1.5");
    assert_eq!(r.issues[2].message, "generation 'bad-id' references missing parent 'gen-missing'");
    assert_eq!(r.issues[3].message, "generation 'bad-id' has 4 config_patches; max is 3");
    assert_eq!(r.issues[4].message, "generation 'gen-20260427-002' has invalid score NaN");
    assert_eq!(r.issues[5].message, "generation id 'gen-20260427-001' appears 2 times");
    assert_eq!(
        r.issues[6].message,
        "generation 'gen-20260427-002' has parent 'gen-20260427-001' but no relation edge"
    );
    assert_eq!(
        r.issues[7].message,
        "relation gen-20260427-009 -> gen-20260427-001 has missing from endpoint"
    );
    assert!(!r.ok);
    assert_eq!(r.issue_count, 8);
    assert_eq!(
        fsck_outcome(&r),
        Err(CliError::Error("fsck found 8 issue(s)".to_string()))
    );
    assert!(fsck_text(&r).starts_with("not ok: 8 issue(s), 4 generations, 1 relations\ninvalid_generation_id: "));
}

#[test]
fn score_bits_follow_ieee_semantics() {
    for (x, inside) in [(0.0, true), (-0.0, true), (1.0, true), (0.5, true), (1.0000001, false), (-0.1, false), (f64::NAN, false), (f64::INFINITY, false)] {
        assert_eq!(in_unit_interval(f64::to_bits(x)), inside, "{}", x);
    }
    assert!(is_finite(f64::to_bits(1e300)));
    assert!(!is_finite(f64::to_bits(f64::NEG_INFINITY)));
    let xs = [-1.0, -0.0, 0.0, 0.25, 2.0, f64::INFINITY];
    for a in xs {
        for b in xs {
            assert_eq!(total_order_after(a.to_bits(), b.to_bits()), a.total_cmp(&b).is_gt());
        }
    }
}

#[test]
fn list_is_newest_first_and_limited() {
    let gens = vec![
        generation("gen-20260427-001", None, T0, 0.1, true),
        generation("gen-20260427-002", None, T0 + 10, 0.2, true),
        generation("gen-20260427-003", None, T0 + 5, 0.3, true),
        generation("gen-20260427-004", None, T0 + 10, 0.4, true),
    ];
    let items = list_view(&gens, &ListArgs { json: true, limit: None }).unwrap();
    let ids: Vec<&str> = items.iter().map(|i| i.id.as_str()).collect();
    assert_eq!(ids, vec!["gen-20260427-002", "gen-20260427-004", "gen-20260427-003", "gen-20260427-001"]);
    assert_eq!(items[0].created_at, "2026-04-27T18:23:25+00:00");
    let two = list_view(&gens, &ListArgs { json: false, limit: Some(2) }).unwrap();
    assert_eq!(two.len(), 2);
    assert_eq!(
        list_view(&vec![], &ListArgs { json: false, limit: None }),
        Err(CliError::NoData("no generations found".to_string()))
    );
    let table = list_table(&two);
    let mut lines = table.lines();
    assert_eq!(
        lines.next().unwrap(),
        format!("{:<22} {:<22} {:>5} {:<8} {:<25} {}", "ID", "PARENT", "SCORE", "SUCCESS", "CREATED_AT", "SOUL")
    );
    assert_eq!(
        lines.next().unwrap(),
        format!(
            "{:<22} {:<22} {:>5.2} {:<8} {:<25} {}",
            "gen-20260427-002", "(seed)", 0.2, true, "2026-04-27T18:23:25+00:00", "soul of gen-20260427-002"
        )
    );
}

#[test]
fn lineage_of_everything_and_of_a_chain() {
    let gens = vec![
        generation("gen-20260427-003", Some("gen-20260427-002"), T0 + 2, 0.9, true),
        generation("gen-20260427-001", None, T0, 0.1, true),
        generation("gen-20260427-002", Some("gen-20260427-001"), T0 + 1, 0.5, false),
        generation("gen-20260427-004", Some("gen-20260427-001"), T0 + 3, 0.6, true),
    ];
    let rels = vec![
        relation("gen-20260427-001", "gen-20260427-002", T0 + 1),
        relation("gen-20260427-002", "gen-20260427-003", T0 + 2),
        relation("gen-20260427-001", "gen-20260427-004", T0 + 3),
        relation("gen-20260427-001", "gen-20260427-999", T0 + 3),
    ];
    let all = lineage_view(&gens, &rels, &LineageArgs { json: true, from: None }).unwrap();
    let ids: Vec<&str> = all.nodes.iter().map(|n| n.id.as_str()).collect();
    assert_eq!(ids, vec!["gen-20260427-001", "gen-20260427-002", "gen-20260427-003", "gen-20260427-004"]);
    assert_eq!(all.edges.len(), 3);
    assert_eq!(all.edges[0].relation_type, "evolved_from");

    let chain = lineage_view(
        &gens,
        &rels,
        &LineageArgs { json: true, from: Some("gen-20260427-003".to_string()) },
    )
    .unwrap();
    let ids: Vec<&str> = chain.nodes.iter().map(|n| n.id.as_str()).collect();
    assert_eq!(ids, vec!["gen-20260427-003", "gen-20260427-002", "gen-20260427-001"]);
    assert_eq!(chain.edges.len(), 2);
    let text = lineage_text(&chain);
    assert!(text.starts_with("Lineage (3 nodes, 2 edges)\n\nNodes:\n"));
    assert!(text.contains(&format!(
        "  {:<22} parent={:<22} score={:.2} success={} soul={}\n",
        "gen-20260427-001", "(seed)", 0.1, true, "soul of gen-20260427-001"
    )));
    assert!(text.ends_with("\nEdges:\n  gen-20260427-001 --evolved_from--> gen-20260427-002\n  gen-20260427-002 --evolved_from--> gen-20260427-003\n"));

    assert_eq!(
        lineage_view(&gens, &rels, &LineageArgs { json: true, from: Some("nope".to_string()) }),
        Err(CliError::NoData("generation 'nope' not found".to_string()))
    );
    assert_eq!(
        lineage_view(&vec![], &rels, &LineageArgs { json: true, from: None }),
        Err(CliError::NoData("no generations found".to_string()))
    );
}

#[test]
fn lineage_chain_stops_at_a_cycle() {
    let gens = vec![
        generation("a", Some("b"), T0, 0.1, true),
        generation("b", Some("a"), T0, 0.1, true),
    ];
    let chain = lineage_view(&gens, &vec![], &LineageArgs { json: true, from: Some("a".to_string()) }).unwrap();
    let ids: Vec<&str> = chain.nodes.iter().map(|n| n.id.as_str()).collect();
    assert_eq!(ids, vec!["a", "b"]);
}

#[test]
fn graph_renders_mermaid() {
    let mut g1 = generation("gen-20260427-001", None, T0, 0.5, true);
    g1.soul = "say \"hi\"\nnow".to_string();
    let g2 = generation("gen-20260427-002", Some("gen-20260427-001"), T0 + 1, 0.875, true);
    let gens = vec![g2, g1];
    let rels = vec![relation("gen-20260427-001", "gen-20260427-002", T0 + 1), relation("x", "gen-20260427-002", T0)];
    let text = render_graph(&gens, &rels).unwrap();
    assert_eq!(
        text,
        "graph TD\n  gen_20260427_001[\"gen-20260427-001<br/>say &quot;hi&quot; now<br/>score: 0.50\"]\n  gen_20260427_002[\"gen-20260427-002<br/>soul of gen-20260427-002<br/>score: 0.88\"]\n  gen_20260427_001 -->|evolved_from| gen_20260427_002\n"
    );
    assert_eq!(render_graph(&vec![], &rels), Err(CliError::NoData("no generations found".to_string())));
}

#[test]
fn status_and_push_agree() {
    let gens = vec![
        generation("gen-20260427-001", None, T0, 0.5, true),
        generation("gen-20260427-002", Some("gen-20260427-001"), T0 + 2, 0.9, true),
        generation("gen-20260427-003", Some("gen-missing"), T0 + 1, 0.9, true),
        generation("gen-20260427-004", Some("gen-20260427-001"), T0 + 2, 0.95, false),
        generation("gen-20260427-005", Some("gen-missing"), T0 + 1, f64::INFINITY, true),
    ];
    let rels = vec![relation("gen-20260427-001", "gen-20260427-002", T0 + 2)];
    let s = status_summary("demo_company", "./data/glctl", &gens, &rels);
    assert_eq!(s.company_dir, "./data/glctl/companies/demo_company");
    assert_eq!(s.generation_count, 5);
    assert_eq!(s.relation_count, 1);
    assert_eq!(s.seed_count, 1);
    assert_eq!(s.head_count, 4);
    assert_eq!(s.dangling_parent_count, 1);
    assert_eq!(s.latest.as_ref().unwrap().id, "gen-20260427-004");
    assert_eq!(s.best.as_ref().unwrap().id, "gen-20260427-002");
    let order = payload_order(&gens);
    assert_eq!(order, vec![0, 2, 4, 1, 3]);
    let ordered: Vec<Generation> = order.iter().map(|&i| gens[i].clone()).collect();
    let p = push_status("demo_company", &ordered, &rels);
    assert_eq!(p.generation_count, 5);
    assert_eq!(p.head_count, s.head_count);
    assert_eq!(p.seed_count, s.seed_count);
    assert_eq!(p.latest_generation_id.as_deref(), Some("gen-20260427-004"));
    assert_eq!(p.best_generation_id.as_deref(), Some("gen-20260427-002"));
    assert_eq!(payload_order(&gens), vec![0, 2, 4, 1, 3]);
    let empty = status_summary("demo_company", "./d", &vec![], &vec![]);
    assert!(empty.latest.is_none() && empty.best.is_none());
}

#[test]
fn push_status_takes_the_list_in_the_order_given() {
    let gens = vec![
        generation("gen-20260427-002", None, T0 + 5, 0.9, true),
        generation("gen-20260427-001", None, T0, 0.9, true),
        generation("gen-20260427-003", None, T0 + 9, 0.4, true),
        generation("gen-20260427-004", None, T0 + 1, 0.2, false),
    ];
    let p = push_status("c", &gens, &vec![]);
    assert_eq!(p.latest_generation_id.as_deref(), Some("gen-20260427-004"));
    assert_eq!(p.best_generation_id.as_deref(), Some("gen-20260427-001"));
    assert_eq!(p.seed_count, 4);
    assert_eq!(p.head_count, 4);
    let none = push_status("c", &vec![generation("gen-20260427-001", None, T0, f64::NAN, true)], &vec![]);
    assert!(none.best_generation_id.is_none());
    assert_eq!(none.latest_generation_id.as_deref(), Some("gen-20260427-001"));
}

#[test]
fn status_text_shows_counts_and_scores_to_three_places() {
    let gens = vec![
        generation("gen-20260427-001", None, T0, 0.5, true),
        generation("gen-20260427-002", Some("gen-20260427-001"), T0 + 2, 0.875, false),
    ];
    let rels = vec![relation("gen-20260427-001", "gen-20260427-002", T0 + 2)];
    let s = status_summary("demo_company", "./data/glctl", &gens, &rels);
    assert_eq!(
        status_text(&s),
        "company: demo_company\n\
         repo: ./data/glctl/companies/demo_company\n\
         generations: 2  relations: 1  seeds: 1  heads: 1\n\
         dangling parents: 0\n\
         latest: gen-20260427-002 score=0.875 success=false\n\
         best: gen-20260427-001 score=0.500 success=true\n"
    );
    let empty = status_summary("c", "./d", &vec![], &vec![]);
    assert_eq!(
        status_text(&empty),
        "company: c\nrepo: ./d/companies/c\ngenerations: 0  relations: 0  seeds: 0  heads: 0\ndangling parents: 0\n"
    );
}

#[test]
fn remote_resolution_and_push_outcome() {
    assert_eq!(resolve_remote(Some("http://h:1///"), Some("http://env"), "http://d"), "http://h:1");
    assert_eq!(resolve_remote(None, Some("http://env/"), "http://d"), "http://env");
    assert_eq!(resolve_remote(None, None, "http://127.0.0.1:3201"), "http://127.0.0.1:3201");
    assert_eq!(push_url("http://127.0.0.1:3201"), "http://127.0.0.1:3201/api/push");
    assert_eq!(push_outcome(200, "200 OK", "{\"ok\":true}"), Ok("{\"ok\":true}".to_string()));
    assert_eq!(
        push_outcome(404, "404 Not Found", "nope"),
        Err(CliError::Error("glhub rejected push with 404 Not Found: nope".to_string()))
    );
}

#[test]
fn new_validates_and_builds_records() {
    assert_eq!(
        validate_new(&request("   ", None, 0.5)),
        Err(CliError::Error("--soul must not be empty".to_string()))
    );
    assert_eq!(
        validate_new(&request("s", None, 1.5)),
        Err(CliError::Error("--score must be in [0.0, 1.0], got 1.5".to_string()))
    );
    assert_eq!(validate_new(&request("s", None, 0.5)), Ok(None));
    let mut r = request("with-patch", None, 0.5);
    r.config_patch_key = Some("baseSpeed".to_string());
    r.config_patch_from = Some(1.0f64.to_bits());
    r.config_patch_to = Some(1.25f64.to_bits());
    r.config_patch_reason = Some("slightly faster".to_string());
    let patch = validate_new(&r).unwrap().unwrap();
    assert_eq!(patch.key, "baseSpeed");
    assert_eq!(f64::from_bits(patch.from_bits), 1.0);
    assert_eq!(f64::from_bits(patch.to_bits), 1.25);
    assert_eq!(patch.reason, "slightly faster");
    r.config_patch_reason = None;
    assert_eq!(
        validate_new(&r),
        Err(CliError::Error("--config-patch-key, --config-patch-from, --config-patch-to, --config-patch-reason must be provided together (all or none)".to_string()))
    );

    let seed = new_generation(request("seed", None, 0.42), "gen-20260427-001".to_string(), at(T0), None);
    assert_eq!(seed.soul, "seed");
    assert!(parent_relation(&seed, true).is_none());
    let mut child_req = request("child", Some("gen-20260427-001"), 0.77);
    child_req.retrospective.cases.push(RetrospectiveCase { name: "n".into(), impact: "i".into() });
    let child = new_generation(child_req, "gen-20260427-002".to_string(), at(T0 + 1), None);
    assert!(!child.retrospective.is_empty());
    let rel = parent_relation(&child, true).unwrap();
    assert_eq!(rel.from, "gen-20260427-001");
    assert_eq!(rel.to, "gen-20260427-002");
    assert_eq!(rel.relation_type, RelationType::EvolvedFrom);
    assert!(parent_relation(&child, false).is_none());
    assert_eq!(
        missing_parent_warning("gen-x"),
        "warning: parent generation 'gen-x' not found; skipping relation"
    );
}

#[test]
fn new_list_lineage_in_memory() {
    let seed = new_generation(request("seed", None, 0.42), "gen-20260427-001".to_string(), at(T0), None);
    let mut req = request("child", Some("gen-20260427-001"), 0.77);
    req.exec_time = Some(12);
    req.success = false;
    let child = new_generation(req, "gen-20260427-002".to_string(), at(T0 + 1), None);
    let rel = parent_relation(&child, true).unwrap();
    let gens = vec![seed, child];
    let rels = vec![rel];
    let items = list_view(&gens, &ListArgs { json: true, limit: None }).unwrap();
    assert_eq!(items.len(), 2);
    assert_eq!(items[0].id, "gen-20260427-002");
    assert_eq!(items[0].parent_id.as_deref(), Some("gen-20260427-001"));
    assert!(!items[0].success);
    let lin = lineage_view(&gens, &rels, &LineageArgs { json: true, from: None }).unwrap();
    assert_eq!(lin.edges.len(), 1);
    assert_eq!(lin.edges[0].from, "gen-20260427-001");
    assert!(fsck_report(&gens, &rels).ok);
}

#[test]
fn exit_codes_and_messages() {
    assert_eq!(CliError::NoData("x".into()).exit_code(), 1);
    assert_eq!(CliError::Error("y".into()).exit_code(), 2);
    assert_eq!(CliError::Error("y".into()).message(), "y");
    assert_eq!(RelationType::ForkedFrom.name(), "forked_from");
    assert_eq!(RelationType::MergedFrom.name(), "merged_from");
    let m = Metrics::default();
    assert!(m.success && m.score.bits == 0 && m.execution_time_s.is_none());
}

#[test]
fn timestamps_follow_chrono() {
    assert!(Timestamp::new(0, 2_000_000_000).is_none());
    assert!(Timestamp::new(58, 1_500_000_000).is_none());
    assert!(Timestamp::new(59, 1_500_000_000).is_some());
    assert!(Timestamp::new(i64::MAX, 0).is_none());
    let t = Timestamp::new(T0, 5).unwrap();
    assert_eq!(t.to_rfc3339(), "2026-04-27T18:23:15.000000005+00:00");
    assert!(t.is_after(&at(T0)));
    assert_eq!(t.secs(), T0);
    assert_eq!(t.nanos(), 5);
}

#[test]
fn new_keeps_a_clean_repository_clean() {
    let mut gens = vec![generation("gen-20260427-001", None, T0, 0.5, true)];
    let mut rels: Vec<Relation> = vec![];
    assert!(fsck_report(&gens, &rels).ok);
    let names: Vec<String> = gens.iter().map(|g| format!("{}.yaml", g.id)).collect();
    let id = next_generation_id(&at(T0 + 10), &names).unwrap();
    assert_eq!(id, "gen-20260427-002");
    let req = request("next", Some("gen-20260427-001"), 1.0);
    let patch = validate_new(&req).unwrap();
    let g = new_generation(req, id, at(T0 + 10), patch);
    let rel = parent_relation(&g, true);
    gens.push(g);
    rels.extend(rel);
    let r = fsck_report(&gens, &rels);
    assert!(r.ok, "{:?}", r.issues);
    assert_eq!(r.generation_count, 2);
    assert_eq!(r.relation_count, 1);
}
