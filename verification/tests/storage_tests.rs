use glctl::storage::{
    company_dir, company_id, count_records, data_dir, generation_path, generations_dir,
    is_record_file_name, next_generation_id, next_generation_id_for_date, path_join,
    relation_path, relations_dir,
};
use glctl::order::stable_order;
use glctl::time::Timestamp;
use glctl::CliError;

#[test]
fn data_dir_defaults_and_overrides() {
    assert_eq!(data_dir(None), "./data/glctl");
    assert_eq!(data_dir(Some("")), "./data/glctl");
    assert_eq!(data_dir(Some("/srv/glctl")), "/srv/glctl");
}

#[test]
fn company_id_is_required_and_checked() {
    assert_eq!(company_id(Some("demo_company")), Ok("demo_company".to_string()));
    assert_eq!(company_id(Some("Acme-01")), Ok("Acme-01".to_string()));
    assert_eq!(
        company_id(None),
        Err(CliError::Error("GLCTL_COMPANY_ID must be set".to_string()))
    );
    assert_eq!(
        company_id(Some("")),
        Err(CliError::Error("GLCTL_COMPANY_ID must be set".to_string()))
    );
    assert_eq!(
        company_id(Some("../etc")),
        Err(CliError::Error(
            "invalid GLCTL_COMPANY_ID '../etc': use ASCII letters, digits, '_' and '-' only"
                .to_string()
        ))
    );
}

#[test]
fn paths_follow_the_documented_layout() {
    let cd = company_dir("./data/glctl", "demo_company");
    assert_eq!(cd, "./data/glctl/companies/demo_company");
    assert_eq!(generations_dir(&cd), "./data/glctl/companies/demo_company/generations");
    assert_eq!(
        relations_dir(&cd),
        "./data/glctl/companies/demo_company/generations/relations"
    );
    assert_eq!(
        generation_path(&cd, "gen-20260427-003"),
        "./data/glctl/companies/demo_company/generations/gen-20260427-003.yaml"
    );
    assert_eq!(
        relation_path(&cd, "gen-20260427-002", "gen-20260427-003"),
        "./data/glctl/companies/demo_company/generations/relations/gen-20260427-002-gen-20260427-003.yaml"
    );
}

#[test]
fn records_of_two_companies_never_share_a_file() {
    let a = company_dir("/srv/glctl/", "acme");
    let b = company_dir("/srv/glctl/", "acme-2");
    let ga = generation_path(&a, "gen-20260427-001");
    let gb = generation_path(&b, "gen-20260427-001");
    assert_ne!(ga, gb);
    assert!(ga.starts_with(&format!("{}/generations/", a)));
    assert!(gb.starts_with(&format!("{}/generations/", b)));
    let ra = relation_path(&a, "x", "y");
    let rb = relation_path(&b, "x", "y");
    assert_ne!(ra, rb);
    assert_eq!(ra, "/srv/glctl/companies/acme/generations/relations/x-y.yaml");
}

#[test]
fn path_join_matches_pathbuf() {
    for (base, part) in [("a", "b"), ("a/", "b"), ("", "b"), ("a", "/abs"), ("a", "")] {
        let expected = std::path::PathBuf::from(base).join(part);
        assert_eq!(path_join(base, part), expected.to_str().unwrap());
    }
}

#[test]
fn record_files_end_in_yaml() {
    assert!(is_record_file_name("gen-20260427-001.yaml"));
    assert!(!is_record_file_name("gen-20260427-001.yml"));
    assert!(!is_record_file_name("relations"));
    let entries = vec![
        ("gen-20260427-001.yaml".to_string(), true),
        ("relations".to_string(), false),
        ("notes.txt".to_string(), true),
        ("dir.yaml".to_string(), false),
        ("gen-20260427-002.yaml".to_string(), true),
    ];
    assert_eq!(count_records(&entries), 2);
}

#[test]
fn next_id_takes_the_largest_sequence_of_the_day() {
    let names: Vec<String> = vec![
        "gen-20260427-001.yaml".into(),
        "gen-20260427-007.yaml".into(),
        "gen-20260426-050.yaml".into(),
        "gen-20260427-009.yml".into(),
        "relations".into(),
        "gen-20260427-abc.yaml".into(),
    ];
    assert_eq!(next_generation_id_for_date("20260427", &names), "gen-20260427-008");
    assert_eq!(next_generation_id_for_date("20260426", &names), "gen-20260426-051");
    assert_eq!(next_generation_id_for_date("20260428", &names), "gen-20260428-001");
}

#[test]
fn next_id_reads_sequences_as_u32() {
    let names: Vec<String> = vec!["gen-20260427-+12.yaml".into(), "gen-20260427-0999.yaml".into()];
    assert_eq!(next_generation_id_for_date("20260427", &names), "gen-20260427-1000");
    let overflow: Vec<String> = vec!["gen-20260427-99999999999.yaml".into()];
    assert_eq!(next_generation_id_for_date("20260427", &overflow), "gen-20260427-001");
}

#[test]
fn next_id_uses_the_utc_date_of_now() {
    // 2026-04-27T18:23:15Z
    let now = Timestamp::new(1_777_314_195, 0).unwrap();
    assert_eq!(now.date_yyyymmdd(), "20260427");
    let names: Vec<String> = vec!["gen-20260427-002.yaml".into()];
    assert_eq!(next_generation_id(&now, &names), Some("gen-20260427-003".to_string()));
    let full: Vec<String> = vec!["gen-20260427-4294967295.yaml".into()];
    assert_eq!(next_generation_id(&now, &full), None);
}

#[test]
fn stable_order_keeps_ties_in_given_order_and_lists_each_position_once() {
    let t = |s: i64| Timestamp::new(s, 0).unwrap();
    let ts = vec![t(20), t(10), t(20), t(30), t(10)];
    assert_eq!(stable_order(&ts, false), vec![1, 4, 0, 2, 3]);
    assert_eq!(stable_order(&ts, true), vec![3, 0, 2, 1, 4]);
    let mut p = stable_order(&ts, true);
    p.sort();
    assert_eq!(p, vec![0, 1, 2, 3, 4]);
    assert_eq!(stable_order(&Vec::new(), true), Vec::<usize>::new());
}
