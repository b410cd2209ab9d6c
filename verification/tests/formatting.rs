use stride_runner_domset::commands::{
    backup_line, export_blocked, export_destination, register_decision, update_plan,
    RegisterAction,
};
use stride_runner_domset::directory::{run_dir_name, StrideDirectory};
use stride_runner_domset::executor::SolverExecutor;
use stride_runner_domset::ids::IId;
use stride_runner_domset::job::{JobResult, JobResultState};
use stride_runner_domset::meta::{instance_to_env, prepare_env_variables, InstanceModel};
use stride_runner_domset::ids::DId;
use stride_runner_domset::settings::Settings;
use stride_runner_domset::summary::{format_time_sec, summary_header, summary_line};

fn s(v: &Vec<u8>) -> String {
    String::from_utf8(v.clone()).unwrap()
}

#[test]
fn logger() {
    // The summary file after three finished jobs, byte for byte.
    let mut content = summary_header();
    content.extend(summary_line(
        IId::new(1),
        &JobResult { state: JobResultState::BestKnown { score: 42 }, runtime_ms: 1000 },
    ));
    content.extend(summary_line(
        IId::new(2),
        &JobResult {
            state: JobResultState::Suboptimal { score: 1337, best_known: 1024 },
            runtime_ms: 4000,
        },
    ));
    content.extend(summary_line(
        IId::new(3),
        &JobResult { state: JobResultState::Error, runtime_ms: 2000 },
    ));
    assert_eq!(
        s(&content),
        "iid,time_sec,state,score,best_score_known\n1,1,best,42,42\n2,4,suboptimal,1337,1024\n3,2,error,,\n"
    );
}

#[test]
fn timeout_summary_row() {
    // A solver that slept through T=2 and G=1 is logged as a timeout after
    // about three seconds, with empty score columns.
    let row = summary_line(
        IId::new(1582),
        &JobResult { state: JobResultState::Timeout, runtime_ms: 3020 },
    );
    assert_eq!(s(&row), "1582,3.02,timeout,,\n");
}

#[test]
fn time_formatting() {
    assert_eq!(s(&format_time_sec(0)), "0");
    assert_eq!(s(&format_time_sec(1000)), "1");
    assert_eq!(s(&format_time_sec(2503)), "2.503");
    assert_eq!(s(&format_time_sec(2500)), "2.5");
    assert_eq!(s(&format_time_sec(2050)), "2.05");
    assert_eq!(s(&format_time_sec(999)), "0.999");
}

#[test]
fn executor_filenames() {
    let exec = SolverExecutor {
        working_dir: b"/tmp/run".to_vec(),
        solver_path: b"/usr/bin/solver".to_vec(),
        args: Vec::new(),
        env: Vec::new(),
        timeout_ms: 300_000,
        grace_ms: 5_000,
        runtime_ms: None,
        instance_id: IId::new(1582),
        instance_data: Vec::new(),
    };
    assert_eq!(s(&exec.filename(b"stdin.gr")), "/tmp/run/iid1582.stdin.gr");
    assert_eq!(s(&exec.filename(b"stdout")), "/tmp/run/iid1582.stdout");
    assert_eq!(s(&exec.filename(b"stderr")), "/tmp/run/iid1582.stderr");
    assert_eq!(exec.runtime(), None);
}

#[test]
fn instance_environment() {
    let inst = InstanceModel {
        iid: IId(1582),
        data_did: DId(1670),
        nodes: 9,
        edges: 8,
        best_score: Some(3),
        diameter: None,
        treewidth: Some(2),
        planar: Some(true),
        bipartite: None,
    };
    let env = instance_to_env(&inst);
    let strings: Vec<(String, String)> = env.iter().map(|p| (s(&p.0), s(&p.1))).collect();
    assert_eq!(
        strings,
        vec![
            ("STRIDE_IID".to_string(), "1582".to_string()),
            ("STRIDE_NODES".to_string(), "9".to_string()),
            ("STRIDE_EDGES".to_string(), "8".to_string()),
            ("STRIDE_BEST_SCORE".to_string(), "3".to_string()),
            ("STRIDE_TREEWIDTH".to_string(), "2".to_string()),
            ("STRIDE_PLANAR".to_string(), "true".to_string()),
        ]
    );
    let full = prepare_env_variables(&inst, 300, 5, b"run-uuid", Some(b"solver-uuid"), false);
    let tail: Vec<(String, String)> =
        full[6..].iter().map(|p| (s(&p.0), s(&p.1))).collect();
    assert_eq!(
        tail,
        vec![
            ("STRIDE_TIMEOUT_SEC".to_string(), "300".to_string()),
            ("STRIDE_GRACE_SEC".to_string(), "5".to_string()),
            ("STRIDE_RUN_UUID".to_string(), "run-uuid".to_string()),
            ("STRIDE_SOLVER_UUID".to_string(), "solver-uuid".to_string()),
        ]
    );
    assert!(prepare_env_variables(&inst, 300, 5, b"x", None, true).is_empty());
}

#[test]
fn directory_layout() {
    let d = StrideDirectory::try_default();
    assert_eq!(s(d.data_dir()), ".stride");
    assert_eq!(s(&d.config_file()), ".stride/config.json");
    assert_eq!(s(&d.db_meta_file()), ".stride/metadata.db");
    assert_eq!(s(&d.db_cache_file()), ".stride/cache.db");
    assert_eq!(s(&d.db_instance_file()), ".stride/instances.db");
    let other = StrideDirectory::try_new(b"/data/.stride".to_vec());
    assert_eq!(s(&other.config_file()), "/data/.stride/config.json");
}

#[test]
fn run_directory_name() {
    assert_eq!(
        s(&run_dir_name(b"stride-logs", b"240131_120000", b"abcd-ef")),
        "stride-logs/240131_120000_abcd-ef"
    );
}

#[test]
fn settings_defaults() {
    let cfg = Settings::try_default(8);
    assert_eq!(s(&cfg.server_url), "https://domset.algorithm.engineering");
    assert_eq!(s(&cfg.run_log_dir), "stride-logs");
    assert!(cfg.solver_bin.is_empty());
    assert!(cfg.solver_uuid.is_none());
    assert_eq!(cfg.timeout, 300);
    assert_eq!(cfg.grace, 5);
    assert_eq!(cfg.parallel_jobs, 8);
}

#[test]
fn register_decisions() {
    assert_eq!(register_decision(false, false), RegisterAction::Fresh);
    assert_eq!(register_decision(false, true), RegisterAction::Fresh);
    assert_eq!(register_decision(true, false), RegisterAction::Refuse);
    assert_eq!(register_decision(true, true), RegisterAction::BackupAndReplace);
    assert_eq!(
        s(&backup_line(b"2024-01-31 12:00:00", b"old-uuid")),
        "2024-01-31 12:00:00 Reregister. The old UUID was old-uuid\n"
    );
}

#[test]
fn update_plans() {
    let p = update_plan(false, false, false, true);
    assert!(p.fetch_metadata && p.fetch_instances && !p.full_corpus && !p.direct);
    let p = update_plan(false, true, false, true);
    assert!(!p.fetch_instances);
    // A missing local file is fetched even under only-metadata, directly.
    let p = update_plan(false, true, false, false);
    assert!(p.fetch_instances && p.direct);
    let p = update_plan(true, false, true, true);
    assert!(p.full_corpus && p.direct);
}

#[test]
fn export_destinations() {
    assert_eq!(export_destination(None, 5), None);
    assert_eq!(export_destination(Some(b"/"), 5), Some(b"5.gr".to_vec()));
    assert_eq!(
        export_destination(Some(b"out/body.gr"), 5),
        Some(b"out/body.gr".to_vec())
    );
    assert!(export_blocked(false, true));
    assert!(!export_blocked(true, true));
    assert!(!export_blocked(false, false));
}
