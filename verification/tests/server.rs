use nucleus::index::IndexKind;
use nucleus::server::{
    build_command, forwarded_client, duration_fits, parse_duration_secs, Config, ConfigVars, Metrics, ScheduleConfig,
};

#[test]
fn substitutes_placeholder() {
    let (prog, args) = build_command("aws s3 cp {} s3://b/n/", "/data/x.redb").unwrap();
    assert_eq!(prog, "aws");
    assert_eq!(args, vec!["s3", "cp", "/data/x.redb", "s3://b/n/"]);
}

#[test]
fn appends_path_when_no_placeholder() {
    let (prog, args) = build_command("rclone copy remote:nucleus", "/d/y.patch").unwrap();
    assert_eq!(prog, "rclone");
    assert_eq!(args, vec!["copy", "remote:nucleus", "/d/y.patch"]);
}

#[test]
fn empty_template_is_none() {
    assert!(build_command("   ", "/d/z").is_none());
}

#[test]
fn every_placeholder_is_substituted() {
    let (prog, args) = build_command("cp\t{} {}\n", "/f").unwrap();
    assert_eq!(prog, "cp");
    assert_eq!(args, vec!["/f", "/f"]);
    let (prog, args) = build_command("upload", "/f").unwrap();
    assert_eq!(prog, "upload");
    assert_eq!(args, vec!["/f"]);
}

#[test]
fn durations() {
    assert_eq!(parse_duration_secs("30s"), Some(30));
    assert_eq!(parse_duration_secs("15m"), Some(900));
    assert_eq!(parse_duration_secs(" 6h "), Some(21_600));
    assert_eq!(parse_duration_secs("1d"), Some(86_400));
    assert_eq!(parse_duration_secs("2w"), Some(1_209_600));
    assert_eq!(parse_duration_secs("45"), Some(45));
    assert_eq!(parse_duration_secs("+5 m"), Some(300));
    assert_eq!(parse_duration_secs(""), None);
    assert_eq!(parse_duration_secs("   "), None);
    assert_eq!(parse_duration_secs("5y"), None);
    assert_eq!(parse_duration_secs("m"), None);
    assert_eq!(parse_duration_secs("-5s"), None);
}

#[test]
fn metrics_exposition() {
    let mut m = Metrics::new();
    m.search_total = 3;
    m.ingest_duplicate_total = 12;
    let text = m.render();
    assert!(text.starts_with("# HELP nucleus_search_total Total search requests served.\n"));
    assert!(text.contains("\nnucleus_search_total 3\n"));
    assert!(text.contains("\nnucleus_search_latency_ms_total 0\n"));
    assert!(text.ends_with("nucleus_ingest_duplicate_total 12\n"));
    assert_eq!(text.lines().count(), 15);
}

#[test]
fn schedule_config_is_plain_data() {
    let s = ScheduleConfig { enabled: true, interval_secs: 3600, full_every: 7, keep_fulls: 7 };
    assert_eq!(s, ScheduleConfig { enabled: true, interval_secs: 3600, full_every: 7, keep_fulls: 7 });
}

#[test]
fn forwarded_for_first_hop() {
    assert_eq!(forwarded_client(" 10.0.0.1 , 10.0.0.2").as_deref(), Some("10.0.0.1"));
    assert_eq!(forwarded_client("192.168.1.9").as_deref(), Some("192.168.1.9"));
    assert!(forwarded_client("  ,10.0.0.2").is_none());
    assert!(forwarded_client("").is_none());
}

fn no_vars() -> ConfigVars {
    ConfigVars {
        db: None,
        index_dir: None,
        admin_token_file: None,
        backup_dir: None,
        addr: None,
        workers: None,
        model_cache: None,
        index: None,
        gpu: None,
        cors_any: None,
        rerank_model: None,
        rerank_candidates: None,
        max_concurrent_searches: None,
        search_wait_ms: None,
        embed_batch_max: None,
        embed_batch_window_ms: None,
        backup_interval: None,
        backup_full_every: None,
        backup_keep: None,
    }
}

#[test]
fn config_defaults() {
    let c = Config::from_vars(no_vars(), None, None, 64);
    assert_eq!(c.addr, "127.0.0.1:8080");
    assert_eq!(c.workers, 2);
    assert_eq!(c.index_kind, IndexKind::Flat);
    assert!(!c.gpu && !c.cors_any);
    assert!(c.rerank_model.is_none() && c.rerank_candidates.is_none());
    assert_eq!(c.max_concurrent_searches, 64);
    assert_eq!(c.search_wait_ms, 2000);
    assert_eq!(c.embed_batch_max, 1);
    assert_eq!(c.embed_batch_window_ms, 5);
    assert_eq!(c.backup_interval_secs, 0);
    assert_eq!(c.backup_full_every, 7);
    assert_eq!(c.backup_keep_fulls, 7);
    assert_eq!(c.db_path, "/var/lib/nucleus/nucleus.redb");
    assert_eq!(c.index_dir, "/var/lib/nucleus/nucleus_indexes");
    assert_eq!(c.admin_token_file, "/var/lib/nucleus/nucleus_admin_token.txt");
    assert_eq!(c.backup_dir, "/var/lib/nucleus/nucleus_backups");
}

#[test]
fn config_paths_beside_a_given_database() {
    let mut v = no_vars();
    v.db = Some("/srv/data/n.redb".into());
    v.backup_dir = Some("/mnt/bk".into());
    let c = Config::from_vars(v, None, Some("/srv/data/".into()), 64);
    assert_eq!(c.db_path, "/srv/data/n.redb");
    assert_eq!(c.index_dir, "/srv/data/nucleus_indexes");
    assert_eq!(c.admin_token_file, "/srv/data/nucleus_admin_token.txt");
    assert_eq!(c.backup_dir, "/mnt/bk");

    let mut v = no_vars();
    v.db = Some("n.redb".into());
    let c = Config::from_vars(v, None, Some(String::new()), 64);
    assert_eq!(c.index_dir, "nucleus_indexes");
}

#[test]
fn config_paths_on_windows() {
    let c = Config::from_vars(no_vars(), Some("C:\\ProgramData\\Nucleus".into()), None, 64);
    assert_eq!(c.db_path, "C:\\ProgramData\\Nucleus\\nucleus.redb");
    assert_eq!(c.index_dir, "C:\\ProgramData\\Nucleus\\nucleus_indexes");

    let mut v = no_vars();
    v.db = Some("D:n.redb".into());
    let c = Config::from_vars(v, Some("C:\\ProgramData\\Nucleus".into()), Some("D:".into()), 64);
    assert_eq!(c.index_dir, "D:nucleus_indexes");
}

#[test]
fn config_from_values() {
    let mut v = no_vars();
    v.addr = Some("0.0.0.0:9000".into());
    v.workers = Some("8".into());
    v.index = Some("HNSW".into());
    v.gpu = Some("Yes".into());
    v.cors_any = Some("off".into());
    v.rerank_model = Some("   ".into());
    v.rerank_candidates = Some("40".into());
    v.max_concurrent_searches = Some("0".into());
    v.embed_batch_max = Some("abc".into());
    v.backup_interval = Some("6h".into());
    v.backup_full_every = Some("5000000000".into());
    v.backup_keep = Some("3".into());
    let c = Config::from_vars(v, None, None, 64);
    assert_eq!(c.addr, "0.0.0.0:9000");
    assert_eq!(c.workers, 8);
    assert_eq!(c.index_kind, IndexKind::Hnsw);
    assert!(c.gpu && !c.cors_any);
    assert!(c.rerank_model.is_none());
    assert_eq!(c.rerank_candidates, Some(40));
    assert_eq!(c.max_concurrent_searches, 64);
    assert_eq!(c.embed_batch_max, 1);
    assert_eq!(c.backup_interval_secs, 21_600);
    assert_eq!(c.backup_full_every, 7);
    assert_eq!(c.backup_keep_fulls, 3);
}

#[test]
fn duration_fits_flags_overflowing_counts() {
    assert!(duration_fits("30s"));
    assert!(duration_fits("nonsense"));
    assert!(duration_fits(""));
    assert!(duration_fits("18446744073709551615"));
    assert!(!duration_fits("18446744073709551615m"));
    assert!(!duration_fits("30500568904944w"));
    assert!(duration_fits("30500568904943w"));
}
