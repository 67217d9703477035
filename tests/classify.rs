use ygramul::error::ErrorKind;
use ygramul::file_info::{survey_names, FileGroup, FileInfo, FileInfos, FileKind};

const ALL_KINDS: [FileKind; 11] = [
    FileKind::Gss,
    FileKind::Gs,
    FileKind::F,
    FileKind::GscOut,
    FileKind::GscList,
    FileKind::Gc,
    FileKind::Pc,
    FileKind::Pc1,
    FileKind::Pc2,
    FileKind::Pc3,
    FileKind::PcList,
];

fn strings(v: &[&str]) -> Vec<String> {
    v.iter().map(|s| s.to_string()).collect()
}

#[test]
fn render_then_classify_gives_kind_and_factors_back() {
    for kind in ALL_KINDS {
        for factors in [vec![], vec!["3"], vec!["3", "7"], vec!["a_b", "", "12"]] {
            let factors = strings(&factors);
            let name = kind.create_name(&factors);
            let info = FileInfo::from_name(&name).ok().expect("rendered name classifies");
            assert_eq!(info.kind, kind);
            assert_eq!(info.factors, factors);
        }
    }
}

#[test]
fn gene_set_score_with_two_factors() {
    let factors = strings(&["3", "7"]);
    let name = FileKind::Gss.create_name(&factors);
    assert_eq!(name, "gss.phewas_all_large.Factor3.Factor7.temp.txt");
    let info = FileInfo::from_name(&name).ok().unwrap();
    assert_eq!(info.kind, FileKind::Gss);
    assert_eq!(info.factors, factors);
}

#[test]
fn rendered_names_of_each_kind() {
    let f = strings(&["2"]);
    assert_eq!(FileKind::F.create_name(&f), "f.phewas_all_large.Factor2.out");
    assert_eq!(FileKind::GscList.create_name(&f), "gsc.phewas_all_large.Factor2.list");
    assert_eq!(FileKind::Pc3.create_name(&f), "pc.phewas_all_large.Factor2.3.out");
    assert_eq!(FileKind::Gc.create_name(&vec![]), "gc.phewas_all_large.out");
}

#[test]
fn unknown_pattern_is_unrecognized() {
    let e = FileInfo::from_name("not.a.known.pattern.xyz").err().expect("rejected");
    assert_eq!(e.kind, ErrorKind::Unrecognized);
    assert_eq!(e.describe(), "Unrecognized file: 'not.a.known.pattern.xyz'.");
}

#[test]
fn factors_may_stand_anywhere() {
    let info = FileInfo::from_name("pc.Factor1.phewas_all_large.2.Factor9.out").ok().unwrap();
    assert_eq!(info.kind, FileKind::Pc2);
    assert_eq!(info.factors, strings(&["1", "9"]));
}

#[test]
fn near_misses_are_rejected() {
    for name in ["gss.phewas_all_large.temp", "pc.phewas_all_large.4.out", "", "gc.out"] {
        assert!(FileInfo::from_name(name).is_err(), "{name}");
    }
}

#[test]
fn classify_path_uses_last_component() {
    let info = FileInfo::from_path("/data/run/gc.phewas_all_large.Factor5.out").ok().unwrap();
    assert_eq!(info.kind, FileKind::Gc);
    assert_eq!(info.factors, strings(&["5"]));
    assert!(FileInfo::from_path("/data/gc.phewas_all_large.out/").is_err());
}

#[test]
fn kind_labels() {
    assert_eq!(FileKind::GscOut.label(), "GSC out");
    assert_eq!(FileKind::Pc1.label(), "PC1");
    assert_eq!(FileKind::PcList.label(), "PC list");
}

#[test]
fn group_keeps_kinds_sorted_and_unique() {
    let mut g = FileGroup::new();
    g.add(FileKind::Pc);
    g.add(FileKind::Gss);
    g.add(FileKind::Pc);
    g.add(FileKind::F);
    assert_eq!(g.kinds, vec![FileKind::Gss, FileKind::F, FileKind::Pc]);
}

#[test]
fn infos_group_by_factor_list() {
    let mut infos = FileInfos::new();
    infos.add(FileInfo { kind: FileKind::Gc, factors: strings(&["1"]) });
    infos.add(FileInfo { kind: FileKind::F, factors: strings(&["1"]) });
    infos.add(FileInfo { kind: FileKind::Gc, factors: strings(&["2"]) });
    assert_eq!(infos.n_files, 3);
    assert_eq!(infos.groups.len(), 2);
    assert_eq!(infos.groups[0].0, strings(&["1"]));
    assert_eq!(infos.groups[0].1.kinds, vec![FileKind::F, FileKind::Gc]);
    assert_eq!(infos.groups[1].1.kinds, vec![FileKind::Gc]);
    assert_eq!(infos.groups[0].1.summary(), "F, GC (2 files)");
    assert_eq!(infos.totals(), "Identified 3 data files in 2 groups.");
    assert_eq!(FileGroup::new().summary(), " (0 files)");
}

#[test]
fn survey_counts_unrecognized_names() {
    let names = strings(&[
        "gc.phewas_all_large.Factor1.out",
        "README.md",
        "f.phewas_all_large.Factor1.out",
        "pc.phewas_all_large.Factor2.list",
    ]);
    let (infos, skipped) = survey_names(&names);
    assert_eq!(skipped, vec!["README.md".to_string()]);
    assert_eq!(infos.groups[0].0, strings(&["1"]));
    assert_eq!(infos.groups[0].1.kinds, vec![FileKind::F, FileKind::Gc]);
    assert_eq!(infos.groups[1].0, strings(&["2"]));
    assert_eq!(infos.groups[1].1.kinds, vec![FileKind::PcList]);
    assert_eq!(infos.n_files, 3);
    assert_eq!(infos.groups.len(), 2);
}

#[test]
fn survey_of_unknown_names_forms_no_group() {
    let names = strings(&["README.md", "notes.txt"]);
    let (infos, skipped) = survey_names(&names);
    assert!(infos.groups.is_empty());
    assert_eq!(infos.n_files, 0);
    assert_eq!(skipped, names);
}

#[test]
fn survey_groups_follow_first_appearance() {
    let names = strings(&[
        "gc.phewas_all_large.Factor2.out",
        "gc.phewas_all_large.Factor1.out",
        "f.phewas_all_large.Factor2.out",
    ]);
    let (infos, _) = survey_names(&names);
    assert_eq!(infos.groups[0].0, strings(&["2"]));
    assert_eq!(infos.groups[1].0, strings(&["1"]));
    assert!(infos.groups.iter().all(|(_, g)| !g.kinds.is_empty()));
}
