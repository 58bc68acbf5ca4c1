use musicsync::classify::{contains_string, is_cover_path, is_media_path, str_ends_with};
use musicsync::config::{
    build_config, default_cover_suffixes, default_extension, default_file_types, default_options,
    split_on_char, split_options,
};
use musicsync::dispatch::{
    build_jobs, decide_job, exit_code, plan_run, summarize, JobAction, JobOutcome,
};
use musicsync::paths::{extension_of, file_name_of, with_extension};
use musicsync::reconcile::reconcile;

fn s(x: &str) -> String {
    x.to_string()
}

fn strings(xs: &[&str]) -> Vec<String> {
    xs.iter().map(|x| x.to_string()).collect()
}

#[test]
fn with_extension_rewrites_the_extension() {
    assert_eq!(with_extension(&s("a/b.flac"), &s("opus")), "a/b.opus");
    assert_eq!(with_extension(&s("album/track1.flac"), &s("opus")), "album/track1.opus");
    assert_eq!(with_extension(&s("a.mp3"), &s("opus")), "a.opus");
}

#[test]
fn with_extension_appends_when_there_is_none() {
    assert_eq!(with_extension(&s("noext"), &s("opus")), "noext.opus");
    assert_eq!(with_extension(&s("dir.d/file"), &s("x")), "dir.d/file.x");
}

#[test]
fn with_extension_leading_dot_is_not_an_extension() {
    assert_eq!(with_extension(&s(".hidden"), &s("opus")), ".hidden.opus");
    assert_eq!(with_extension(&s("a/.hidden"), &s("opus")), "a/.hidden.opus");
}

#[test]
fn with_extension_replaces_only_the_last_part() {
    assert_eq!(with_extension(&s("a.b.c"), &s("x")), "a.b.x");
}

#[test]
fn with_extension_empty_strips() {
    assert_eq!(with_extension(&s("a.mp3"), &s("")), "a");
    assert_eq!(with_extension(&s("noext"), &s("")), "noext");
}

#[test]
fn extension_of_finds_the_extension() {
    assert_eq!(extension_of(&s("a/b.flac")), Some(s("flac")));
    assert_eq!(extension_of(&s("a.b.c")), Some(s("c")));
    assert_eq!(extension_of(&s("a.b.")), Some(s("")));
}

#[test]
fn extension_of_none_without_one() {
    assert_eq!(extension_of(&s("noext")), None);
    assert_eq!(extension_of(&s(".hidden")), None);
    assert_eq!(extension_of(&s("a/.hidden")), None);
    assert_eq!(extension_of(&s("dir.d/file")), None);
}

#[test]
fn file_name_of_takes_the_last_component() {
    assert_eq!(file_name_of(&s("a/b/c.mp3")), "c.mp3");
    assert_eq!(file_name_of(&s("plain")), "plain");
}

#[test]
fn str_ends_with_checks_suffixes() {
    assert!(str_ends_with(&s("foocover.jpg"), &s("cover.jpg")));
    assert!(str_ends_with(&s("abc"), &s("")));
    assert!(!str_ends_with(&s("abc"), &s("abcd")));
    assert!(!str_ends_with(&s("abc"), &s("ab")));
}

#[test]
fn contains_string_is_membership() {
    let v = strings(&["mp3", "flac"]);
    assert!(contains_string(&v, &s("flac")));
    assert!(!contains_string(&v, &s("wav")));
}

#[test]
fn media_classification_is_case_insensitive() {
    let types = default_file_types();
    assert!(is_media_path(&s("album/t.FLAC"), &types));
    assert!(is_media_path(&s("album/t.mp3"), &types));
    assert!(!is_media_path(&s("album/t.txt"), &types));
    assert!(!is_media_path(&s("album/noext"), &types));
    assert!(!is_media_path(&s("album/cover.jpg"), &types));
}

#[test]
fn cover_classification_matches_suffixes_case_insensitively() {
    let covers = default_cover_suffixes();
    assert!(is_cover_path(&s("album/cover.jpg"), &covers));
    assert!(is_cover_path(&s("album/FooCover.jpg"), &covers));
    assert!(is_cover_path(&s("x/AlbumArtwork.PNG"), &covers));
    assert!(!is_cover_path(&s("album/foo.jpg"), &covers));
    assert!(!is_cover_path(&s("album/cover.jpeg"), &covers));
}

#[test]
fn reconcile_fresh_destination_converts_everything() {
    // source = {album/track1.flac}, destination = {}
    let src = strings(&["album/track1.flac"]);
    let dst = strings(&[]);
    let (to_delete, to_convert) = reconcile(&src, &dst, &s("opus"), false);
    assert_eq!(to_delete, Vec::<String>::new());
    assert_eq!(to_convert, strings(&["album/track1.flac"]));
    let jobs = build_jobs(&to_convert, &s("opus"));
    assert_eq!(jobs.len(), 1);
    assert_eq!(jobs[0].source_rel, "album/track1.flac");
    assert_eq!(jobs[0].dest_rel, "album/track1.opus");
}

#[test]
fn reconcile_satisfied_source_and_orphan_destination() {
    // source = {a.mp3}, destination = {a.opus, b.opus}
    let src = strings(&["a.mp3"]);
    let dst = strings(&["a.opus", "b.opus"]);
    let (to_delete, to_convert) = reconcile(&src, &dst, &s("opus"), false);
    assert_eq!(to_delete, strings(&["b.opus"]));
    assert_eq!(to_convert, Vec::<String>::new());
}

#[test]
fn reconcile_preserve_never_deletes() {
    let src = strings(&["a.mp3"]);
    let dst = strings(&["a.opus", "b.opus", "c.opus"]);
    let (to_delete, to_convert) = reconcile(&src, &dst, &s("opus"), true);
    assert_eq!(to_delete, Vec::<String>::new());
    assert_eq!(to_convert, Vec::<String>::new());
}

#[test]
fn reconcile_second_run_is_empty() {
    let src = strings(&["album/a.flac", "album/b.mp3", "c.wav"]);
    let dst = strings(&["stale.opus"]);
    let (to_delete, to_convert) = reconcile(&src, &dst, &s("opus"), false);
    // apply the plan: drop deletions, add the rewritten conversions
    let mut dst2: Vec<String> = dst
        .iter()
        .filter(|d| !to_delete.contains(*d))
        .cloned()
        .collect();
    for p in &to_convert {
        dst2.push(with_extension(p, &s("opus")));
    }
    let (again_delete, again_convert) = reconcile(&src, &dst2, &s("opus"), false);
    assert_eq!(again_delete, Vec::<String>::new());
    assert_eq!(again_convert, Vec::<String>::new());
}

#[test]
fn reconcile_extension_change_resyncs_everything() {
    let src = strings(&["album/a.flac", "b.mp3"]);
    let dst = strings(&["album/a.opus", "b.opus"]);
    let (to_delete, to_convert) = reconcile(&src, &dst, &s("ogg"), false);
    assert_eq!(to_delete, strings(&["album/a.opus", "b.opus"]));
    assert_eq!(to_convert, strings(&["album/a.flac", "b.mp3"]));
}

#[test]
fn plan_run_pairs_every_pending_source_with_its_rewrite() {
    // source = {album/track1.flac, album/cover.jpg}, destination = {}:
    // the cover is not media, so one conversion is planned and the final
    // tree is {album/track1.opus} plus the mirrored cover
    let config = build_config(
        s("/music"),
        s("/mirror"),
        None,
        false,
        false,
        false,
        None,
        Vec::new(),
        Vec::new(),
    );
    let entries = strings(&["album/track1.flac", "album/cover.jpg"]);
    let source_media: Vec<String> = entries
        .iter()
        .filter(|p| is_media_path(p, &config.file_types))
        .cloned()
        .collect();
    assert_eq!(source_media, strings(&["album/track1.flac"]));
    assert!(is_cover_path(&entries[1], &config.cover_suffixes));

    let (to_delete, jobs) = plan_run(&source_media, &Vec::new(), &config);
    assert_eq!(to_delete, Vec::<String>::new());
    assert_eq!(jobs.len(), 1);
    assert_eq!(jobs[0].source_rel, "album/track1.flac");
    assert_eq!(jobs[0].dest_rel, "album/track1.opus");
}

#[test]
fn reconcile_destination_under_another_extension_is_an_orphan() {
    // the destination is always compared under the target extension, so a
    // destination file kept in a different encoding counts as stale
    let src = strings(&["a.flac"]);
    let dst = strings(&["a.mp3", "a.opus"]);
    let (to_delete, to_convert) = reconcile(&src, &dst, &s("opus"), false);
    assert_eq!(to_delete, strings(&["a.mp3"]));
    assert_eq!(to_convert, Vec::<String>::new());
}

#[test]
fn reconcile_same_stem_sources_both_pend() {
    let src = strings(&["a.mp3", "a.flac"]);
    let dst = strings(&[]);
    let (to_delete, to_convert) = reconcile(&src, &dst, &s("opus"), false);
    assert_eq!(to_delete, Vec::<String>::new());
    assert_eq!(to_convert, strings(&["a.mp3", "a.flac"]));
}

#[test]
fn decide_job_follows_the_overwrite_policy() {
    assert_eq!(decide_job(true, false, false), JobAction::Convert);
    assert_eq!(decide_job(true, false, true), JobAction::Convert);
    assert_eq!(decide_job(true, true, false), JobAction::SkipExisting);
    assert_eq!(decide_job(true, true, true), JobAction::ReplaceThenConvert);
    assert_eq!(decide_job(false, false, false), JobAction::FailMissingSource);
    assert_eq!(decide_job(false, true, false), JobAction::SkipExisting);
}

#[test]
fn summarize_counts_each_outcome_once() {
    let outcomes = vec![
        JobOutcome::Converted,
        JobOutcome::Failed(s("boom")),
        JobOutcome::SkippedExisting,
        JobOutcome::Converted,
    ];
    let report = summarize(&outcomes);
    assert_eq!(report.converted, 2);
    assert_eq!(report.skipped, 1);
    assert_eq!(report.failed, 1);
    assert_eq!(report.failures, strings(&["boom"]));
    assert_eq!(exit_code(&report), 1);
}

#[test]
fn one_failure_leaves_the_rest_accounted() {
    // five jobs, the middle one fails: the other four still convert
    let mut outcomes = Vec::new();
    for i in 0..5 {
        if i == 2 {
            outcomes.push(JobOutcome::Failed(s("job 2 exited nonzero")));
        } else {
            outcomes.push(JobOutcome::Converted);
        }
    }
    let report = summarize(&outcomes);
    assert_eq!(report.converted, 4);
    assert_eq!(report.failed, 1);
    assert_eq!(report.skipped, 0);
    assert_eq!(report.failures, strings(&["job 2 exited nonzero"]));
    assert_eq!(exit_code(&report), 1);
}

#[test]
fn clean_run_exits_zero() {
    let outcomes = vec![JobOutcome::Converted, JobOutcome::SkippedExisting];
    let report = summarize(&outcomes);
    assert_eq!(report.failed, 0);
    assert_eq!(exit_code(&report), 0);
}

#[test]
fn defaults_match_the_documented_lists() {
    assert_eq!(default_extension(), "opus");
    assert_eq!(
        default_options(),
        "-c:a libopus -b:a 192K -vbr on -cutoff 0 -c:v copy"
    );
    assert_eq!(
        default_file_types(),
        strings(&["mp3", "aac", "aif", "flac", "ogg", "wav"])
    );
    assert_eq!(
        default_cover_suffixes(),
        strings(&["cover.jpg", "cover.png", "albumartsmall.jpg", "albumartwork.png"])
    );
}

#[test]
fn build_config_fills_defaults() {
    let c = build_config(
        s("/music"),
        s("/mirror"),
        None,
        false,
        false,
        false,
        None,
        Vec::new(),
        Vec::new(),
    );
    assert_eq!(c.target_extension, "opus");
    assert_eq!(c.options, "-c:a libopus -b:a 192K -vbr on -cutoff 0 -c:v copy");
    assert_eq!(c.file_types, default_file_types());
    assert_eq!(c.cover_suffixes, default_cover_suffixes());
    assert!(c.copy_covers);
    assert!(!c.overwrite);
    assert!(!c.preserve);
}

#[test]
fn build_config_keeps_what_was_given() {
    let c = build_config(
        s("in"),
        s("out"),
        Some(s("ogg")),
        true,
        true,
        true,
        Some(s("-b:a 128K")),
        strings(&["flac"]),
        strings(&["front.png"]),
    );
    assert_eq!(c.target_extension, "ogg");
    assert_eq!(c.options, "-b:a 128K");
    assert_eq!(c.file_types, strings(&["flac"]));
    assert_eq!(c.cover_suffixes, strings(&["front.png"]));
    assert!(c.copy_covers == false);
    assert!(c.overwrite);
    assert!(c.preserve);
}

#[test]
fn split_options_cuts_on_every_space() {
    assert_eq!(
        split_options(&s("-c:a libopus -b:a 192K")),
        strings(&["-c:a", "libopus", "-b:a", "192K"])
    );
    assert_eq!(split_options(&s("a  b")), strings(&["a", "", "b"]));
    assert_eq!(split_options(&s("")), strings(&[""]));
    assert_eq!(split_options(&s("solo")), strings(&["solo"]));
}

#[test]
fn split_on_char_cuts_comma_lists() {
    assert_eq!(split_on_char(&s("mp3,flac,wav"), ','), strings(&["mp3", "flac", "wav"]));
    assert_eq!(split_on_char(&s("a,,b"), ','), strings(&["a", "", "b"]));
    assert_eq!(split_on_char(&s("trailing,"), ','), strings(&["trailing", ""]));
}
