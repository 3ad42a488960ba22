use warden::algo::Algo;
use warden::dbms::{deploy_plan, DeployAction};
use warden::error::Error;
use warden::fsnames::lookup_pattern;
use warden::identity::Identity;
use warden::meta::{Meta, MetaDoc};
use warden::rawmap::SourceFile;
use warden::seal::SealMeta;
use warden::sewer::Sewer;
use warden::snapshot::{ArchiveEntry, Format, Snapshot};
use warden::snapshot::snapshot_entry_ok;
use warden::timeutil::Timestamp;
use std::io::Read;

fn b(s: &str) -> Vec<u8> {
    s.as_bytes().to_vec()
}

fn file(path: &str, content: &str) -> SourceFile {
    SourceFile { path: b(path), content: b(content) }
}

fn fixed_now() -> Timestamp {
    Timestamp { year: 2023, month: 1, day: 2, hour: 3, minute: 4, second: 5, millis: 6 }
}

fn find(haystack: &[u8], needle: &[u8]) -> Option<usize> {
    if needle.is_empty() || needle.len() > haystack.len() {
        return None;
    }
    (0..=haystack.len() - needle.len()).find(|&i| &haystack[i..i + needle.len()] == needle)
}

fn build(files: Vec<SourceFile>) -> Result<(Sewer, Vec<u128>), Error> {
    let sewer = Sewer::new(b"/m".as_slice(), b"/m/sql".as_slice(), &files)?;
    let order = sewer.sew_up()?;
    Ok((sewer, order))
}

#[test]
fn two_patches_order_alphabetically() {
    let (sewer, order) = build(vec![
        file("/m/sql/b.sql", "select 2;"),
        file("/m/sql/a.sql", "select 1;"),
    ])
    .expect("builds");
    assert_eq!(order.len(), 2);
    let text = sewer.sewage(&order, &fixed_now());
    let begin_a = find(&text, b"-- BEGIN: sql/a.sql").expect("a begins");
    let end_a = find(&text, b"-- END: sql/a.sql").expect("a ends");
    let begin_b = find(&text, b"-- BEGIN: sql/b.sql").expect("b begins");
    let one = find(&text, b"select 1;").expect("body a");
    assert!(begin_a < one && one < end_a && end_a < begin_b);
    assert!(find(&text, b"-- version: 1/10").is_some());
    assert!(find(&text, b"-- manifest:").is_some());
    assert!(find(&text, b"--   - sql/a.sql").unwrap() < find(&text, b"--   - sql/b.sql").unwrap());
    assert!(find(&text, b"-- timestamp: 2023-01-02T03:04:05.006+00:00").is_some());
}

#[test]
fn explicit_requirement_wins_over_weight() {
    // b.sql requires a.sql: alphabetical and declared order agree.
    let (_, order) = build(vec![
        file("/m/sql/a.sql", "select 1;"),
        file("/m/sql/b.sql", "-- ---\n-- require: a.sql\n-- ---\n\nselect 2;"),
    ])
    .expect("builds");
    let a = warden::pathutil::path_uuid(b"/m/sql/a.sql");
    let bid = warden::pathutil::path_uuid(b"/m/sql/b.sql");
    assert_eq!(order, vec![a, bid]);

    // a.sql requires b.sql: the requirement beats the weight order.
    let (_, order) = build(vec![
        file("/m/sql/a.sql", "-- ---\n-- require: b.sql\n-- ---\n\nselect 1;"),
        file("/m/sql/b.sql", "select 2;"),
    ])
    .expect("builds");
    assert_eq!(order, vec![bid, a]);
}

#[test]
fn parent_package_is_required_first() {
    let (_, order) = build(vec![
        file("/m/sql/pkg/inner.sql", "select 2;"),
        file("/m/sql/pkg.sql", "select 1;"),
    ])
    .expect("builds");
    let pkg = warden::pathutil::path_uuid(b"/m/sql/pkg.sql");
    let inner = warden::pathutil::path_uuid(b"/m/sql/pkg/inner.sql");
    assert_eq!(order, vec![pkg, inner]);
}

#[test]
fn cycle_is_detected() {
    let r = build(vec![
        file("/m/sql/a.sql", "-- ---\n-- require: b.sql\n-- ---\nselect 1;"),
        file("/m/sql/b.sql", "-- ---\n-- require: a.sql\n-- ---\nselect 2;"),
    ]);
    match r {
        Err(Error::CycleDetected { paths }) => {
            assert_eq!(paths.len(), 2);
            assert!(paths.contains(&b("sql/a")));
            assert!(paths.contains(&b("sql/b")));
        }
        other => panic!("expected CycleDetected, got {:?}", other.map(|_| ())),
    }
}

#[test]
fn unknown_requirement_is_reported() {
    let r = build(vec![file(
        "/m/sql/a.sql",
        "-- ---\n-- require: zzz.sql\n-- ---\nselect 1;",
    )]);
    match r {
        Err(Error::UnknownRequirement { requirement, owner }) => {
            assert_eq!(requirement, b("zzz.sql"));
            assert_eq!(owner, b("sql/a"));
        }
        other => panic!("expected UnknownRequirement, got {:?}", other.map(|_| ())),
    }
}

#[test]
fn requirement_scoping_distinguishes_root() {
    // "/shared.sql" resolves from the source base even from a nested patch;
    // "shared.sql" resolves from the patch's own folder.
    let (_, order) = build(vec![
        file("/m/sql/shared.sql", "select 0;"),
        file("/m/sql/pkg2/one.sql", "-- ---\n-- require: /shared.sql\n-- ---\nselect 1;"),
        file("/m/sql/pkg2/two.sql", "-- ---\n-- require: one.sql\n-- ---\nselect 2;"),
    ])
    .expect("builds");
    let shared = warden::pathutil::path_uuid(b"/m/sql/shared.sql");
    let one = warden::pathutil::path_uuid(b"/m/sql/pkg2/one.sql");
    let two = warden::pathutil::path_uuid(b"/m/sql/pkg2/two.sql");
    let pos = |id: u128| order.iter().position(|&x| x == id).unwrap();
    assert!(pos(shared) < pos(one));
    assert!(pos(one) < pos(two));
}

#[test]
fn weight_override_reorders_patches() {
    // c.sql pulls itself before a.sql by declaring a tiny weight... a
    // weight is added, so a large override pushes a.sql after c.sql.
    let (_, order) = build(vec![
        file("/m/sql/a.sql", "-- ---\n-- weight: 1/1\n-- ---\nselect 1;"),
        file("/m/sql/c.sql", "select 3;"),
    ])
    .expect("builds");
    let a = warden::pathutil::path_uuid(b"/m/sql/a.sql");
    let c = warden::pathutil::path_uuid(b"/m/sql/c.sql");
    assert_eq!(order, vec![c, a]);
}

#[test]
fn sewage_is_stable_for_equal_inputs() {
    let files = vec![
        file("/m/sql/a.sql", "select 1;"),
        file("/m/sql/b.sql", "select 2;"),
    ];
    let (s1, o1) = build(files.clone()).unwrap();
    let (s2, o2) = build(files).unwrap();
    assert_eq!(o1, o2);
    let now = fixed_now();
    assert_eq!(s1.sewage(&o1, &now), s2.sewage(&o2, &now));
}

#[test]
fn seal_round_trip() {
    let content = b"-- migration body\nselect 1;\n";
    let meta = SealMeta::build(b("/m/seal.yml"), Algo::Blake2b);
    let text = meta.make(content, &fixed_now());
    let seal = SealMeta::read_the_seal(&text).expect("reads back");
    assert_eq!(seal.algo, Algo::Blake2b);
    assert_eq!(seal.sign, Algo::Blake2b.hash(content));
    assert_eq!(seal.timestamp.year, 2023);
    assert_eq!(seal.timestamp.millis, 6);
}

#[test]
fn seal_rejects_unknown_algorithm() {
    let text = b"---\nversion: 1/10\n---\ntimestamp: 2023-01-02T03:04:05.006+00:00\nseal:\n  algo: \"md5\"\n  sign: \"00\"\n";
    match SealMeta::read_the_seal(text) {
        Err(Error::UnknownAlgorithm { name }) => assert_eq!(name, b("md5")),
        other => panic!("expected UnknownAlgorithm, got {:?}", other.map(|_| ())),
    }
}

#[test]
fn seal_rejects_wrong_version() {
    let text = b"---\nversion: 2/10\n---\n";
    match SealMeta::read_the_seal(text) {
        Err(Error::UnsupportedVersion { got, .. }) => assert_eq!(got, b("2/10")),
        other => panic!("expected UnsupportedVersion, got {:?}", other.map(|_| ())),
    }
}

#[test]
fn seal_reports_missing_sign() {
    let text = b"---\nversion: 1/10\n---\ntimestamp: 2023-01-02T03:04:05.006+00:00\nseal:\n  algo: \"blake2b\"\n";
    match SealMeta::read_the_seal(text) {
        Err(Error::MissingField { field, .. }) => assert_eq!(field, b("sign")),
        other => panic!("expected MissingField, got {:?}", other.map(|_| ())),
    }
}

#[test]
fn meta_round_trip() {
    let meta = Meta {
        path: b("/m/000000--init/meta.yml"),
        identity: Identity::build(b("000000"), b("init")),
        seal: SealMeta::build(b("/m/000000--init/seal.yml"), Algo::Blake2b),
        source: b("/m/000000--init/sql"),
        source_is_dir: true,
        target: b("/m/000000--init/migration.sql"),
    };
    let text = meta.yamlette();
    let doc = Meta::parse_meta(&text).expect("parses");
    assert_eq!(doc.uid, b("000000"));
    assert_eq!(doc.name, b("init"));
    assert_eq!(doc.source, b("sql"));
    assert_eq!(doc.target, b("migration.sql"));
    assert_eq!(doc.seal_file, b("seal.yml"));
    assert_eq!(doc.algo, Algo::Blake2b);
    let back = Meta::assemble(b("/m/000000--init/meta.yml"), doc, true);
    assert_eq!(back.source, b("/m/000000--init/sql"));
    assert_eq!(back.target, b("/m/000000--init/migration.sql"));
    assert_eq!(back.seal.file, b("/m/000000--init/seal.yml"));
}

#[test]
fn meta_reports_missing_field() {
    let text = b"---\nversion: 1/10\n---\nidentity:\n  uid: \"000000\"\n";
    match Meta::parse_meta(text) {
        Err(Error::MissingField { field, .. }) => assert_eq!(field, b("name")),
        other => panic!("expected MissingField, got {:?}", other.map(|_| ())),
    }
}

#[test]
fn config_generates_and_parses() {
    let registered = vec![b("postgresql")];
    let text = warden::config::generate_initial(b"postgresql", &registered).expect("generates");
    let doc = warden::config::parse_config(&text, &registered).expect("parses");
    assert_eq!(doc.repository, b(".."));
    assert_eq!(doc.migrations, b("../migrations"));
    assert_eq!(doc.driver, b("postgresql"));
    match doc.connection {
        Some(warden::config::ConnectionRef::EnvVar(name)) => {
            assert_eq!(name, b("DATABASE_URL"))
        }
        other => panic!("expected an env reference, got {:?}", other),
    }
}

#[test]
fn config_rejects_unknown_driver() {
    let registered = vec![b("postgresql")];
    match warden::config::generate_initial(b"sqlite", &registered) {
        Err(Error::UnknownDriver { name }) => assert_eq!(name, b("sqlite")),
        other => panic!("expected UnknownDriver, got {:?}", other.map(|_| ())),
    }
}

#[test]
fn migrations_relpath_is_fixed() {
    assert_eq!(warden::config::migrations_relpath(), b("../migrations"));
}

#[test]
fn snapshot_extracts_byte_for_byte() {
    let entries = vec![
        ArchiveEntry { path: b("meta.yml"), content: b("---\nversion: 1/10\n") },
        ArchiveEntry { path: b("sql/a.sql"), content: b("select 1;\n") },
    ];
    let snap = Snapshot::take(Format::TarGz, b"000000--init", &entries);
    assert_eq!(snap.format, Format::TarGz);

    let decoder = libflate::gzip::Decoder::new(std::io::Cursor::new(&snap.data)).expect("gzip");
    let mut archive = tar::Archive::new(decoder);
    let mut seen = Vec::new();
    for entry in archive.entries().expect("entries") {
        let mut entry = entry.expect("entry");
        let path = entry.path().expect("path").to_string_lossy().into_owned();
        let mut content = Vec::new();
        entry.read_to_end(&mut content).expect("content");
        seen.push((path, content));
    }
    assert_eq!(seen.len(), 2);
    assert_eq!(seen[0].0, "000000--init/meta.yml");
    assert_eq!(seen[0].1, b("---\nversion: 1/10\n"));
    assert_eq!(seen[1].0, "000000--init/sql/a.sql");
    assert_eq!(seen[1].1, b("select 1;\n"));
}

#[test]
fn snapshot_format_tags() {
    assert_eq!(Format::TarGz.as_str(), b(".tar.gz"));
    assert!(matches!(Format::from(b".tar.gz"), Ok(Format::TarGz)));
    assert!(Format::from(b".zip").is_err());
}

#[test]
fn pattern_prefix_match_wins() {
    let names = vec![b("000001--alpha"), b("000002--beta")];
    let id = lookup_pattern(&names, b"000002").expect("finds");
    assert_eq!(id.get_name(), &b("beta"));
}

#[test]
fn pattern_single_suffix_match() {
    let names = vec![b("000001--alpha"), b("000002--beta")];
    let id = lookup_pattern(&names, b"beta").expect("finds");
    assert_eq!(id.get_uid(), &b("000002"));
}

#[test]
fn pattern_prefix_beats_earlier_suffix_matches() {
    let names = vec![b("000001--same"), b("000002--same"), b("same--late")];
    let id = lookup_pattern(&names, b"same").expect("prefix match wins");
    assert_eq!(id.get_uid(), &b("same"));
    assert_eq!(id.get_name(), &b("late"));
}

#[test]
fn seal_rejects_short_signature() {
    let text = b"---\nversion: 1/10\n---\ntimestamp: 2023-01-02T03:04:05.006+00:00\nseal:\n  algo: \"blake2b\"\n  sign: \"0011\"\n";
    match SealMeta::read_the_seal(text) {
        Err(Error::MissingField { field, .. }) => assert_eq!(field, b("sign")),
        other => panic!("expected MissingField, got {:?}", other.map(|_| ())),
    }
}

#[test]
fn snapshot_rejects_escaping_entry() {
    assert!(snapshot_entry_ok(b"root", b"sql/a.sql"));
    assert!(!snapshot_entry_ok(b"root", b"../escape.sql"));
    assert!(!snapshot_entry_ok(b"", b"a.sql"));
}

#[test]
fn pattern_ambiguous_suffix_is_absent() {
    let names = vec![b("000001--same"), b("000002--same")];
    assert!(lookup_pattern(&names, b"same").is_none());
    assert!(lookup_pattern(&names, b"other").is_none());
}

#[test]
fn deploy_decision_matches_state() {
    assert_eq!(deploy_plan(true, Some(7)), Ok(DeployAction::RegisterAndDeploy));
    assert_eq!(deploy_plan(false, Some(0)), Ok(DeployAction::DeployInitial));
    assert_eq!(deploy_plan(false, Some(3)), Err(Error::NotInitialized));
    assert_eq!(deploy_plan(false, None), Err(Error::NotInitialized));
}
