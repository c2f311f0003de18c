use tv_renamer::paths::shorten_path;
use tv_renamer::renderer::Arguments;
use tv_renamer::renderer::ResolveError;
use tv_renamer::scanner::derive_season_number;
use tv_renamer::scanner::get_episodes;
use tv_renamer::scanner::get_seasons;
use tv_renamer::scanner::EntryKind;
use tv_renamer::scanner::ScanEntry;
use tv_renamer::text::pad;
use tv_renamer::text::sanitize;
use tv_renamer::tokenizer::parse;
use tv_renamer::tokenizer::ParseError;
use tv_renamer::tokenizer::TemplateToken;

fn args_with(template: &str, series: &str, season: usize, pad_length: usize) -> Arguments {
    Arguments {
        automatic: false,
        dry_run: true,
        log_changes: false,
        verbose: false,
        directory: String::from("/tv"),
        series_name: String::from(series),
        season_number: season,
        episode_count: 1,
        pad_length,
        template: parse(template).expect("template must parse"),
    }
}

#[test]
fn test_derive_season_number() {
    assert_eq!(derive_season_number("Specials"), Some(0));
    assert_eq!(derive_season_number("Season 0"), Some(0));
    assert_eq!(derive_season_number("Season 1"), Some(1));
    assert_eq!(derive_season_number("season9"), Some(9));
    assert_eq!(derive_season_number("Extras"), None);
}

#[test]
fn test_derive_season_number_normalizes_case_and_spaces() {
    assert_eq!(derive_season_number("SEASON 12"), Some(12));
    assert_eq!(derive_season_number("SeAsOn  7"), Some(7));
    assert_eq!(derive_season_number("/tv/Some Show/Season 3"), Some(3));
    assert_eq!(derive_season_number("/tv/Some Show/Season 3/"), Some(3));
}

#[test]
fn test_derive_season_number_rejects_extra_text() {
    assert_eq!(derive_season_number("Season 1 (Extended)"), None);
    assert_eq!(derive_season_number("Season"), None);
    assert_eq!(derive_season_number("season 99999999999999999999999"), None);
}

#[test]
fn test_pad_widens_short_numbers() {
    assert_eq!(pad(5, '0', 2), "05");
    assert_eq!(pad(0, '0', 3), "000");
    assert_eq!(pad(42, ' ', 4), "  42");
}

#[test]
fn test_pad_never_truncates() {
    assert_eq!(pad(123, '0', 2), "123");
    assert_eq!(pad(7, '0', 0), "7");
}

#[test]
fn test_sanitize_trims_and_replaces_separators() {
    assert_eq!(sanitize("  Foo/Bar  "), "Foo-Bar");
    assert_eq!(sanitize("a/b/c"), "a-b-c");
    assert_eq!(sanitize("   "), "");
    assert_eq!(sanitize("plain"), "plain");
}

#[test]
fn test_parse_literals_and_escapes() {
    assert_eq!(
        parse("ab"),
        Ok(vec![
            TemplateToken::Character('a'),
            TemplateToken::Character('b'),
        ])
    );
    assert_eq!(
        parse("{{}}"),
        Ok(vec![
            TemplateToken::Character('{'),
            TemplateToken::Character('}'),
        ])
    );
}

#[test]
fn test_parse_placeholders() {
    assert_eq!(
        parse("{series} S{season}E{episode} {title}"),
        Ok(vec![
            TemplateToken::Series,
            TemplateToken::Character(' '),
            TemplateToken::Character('S'),
            TemplateToken::Season,
            TemplateToken::Character('E'),
            TemplateToken::Episode,
            TemplateToken::Character(' '),
            TemplateToken::TVDB,
        ])
    );
}

#[test]
fn test_parse_errors() {
    assert_eq!(parse("{foo}"), Err(ParseError::UnknownPlaceholder));
    assert_eq!(parse("{series"), Err(ParseError::UnclosedPlaceholder));
    assert_eq!(parse("a}b"), Err(ParseError::UnexpectedCloseBrace));
}

#[test]
fn test_render_literal_only_template() {
    let a = args_with("Video - ", "unused", 1, 2);
    let dest = a.get_destination("/tv", "source.mkv", 1, "");
    assert_eq!(dest, "/tv/Video -.mkv");
}

#[test]
fn test_render_series_season_episode() {
    let a = args_with("{series} S{season}E{episode}", "Foo", 2, 2);
    let dest = a.get_destination("/tv", "x.mkv", 3, "");
    assert_eq!(dest, "/tv/Foo S2E03.mkv");
}

#[test]
fn test_render_full_template_with_title() {
    let a = args_with("{series} S{season}E{episode} {title}", "Foo", 2, 2);
    let dest = a.get_destination("/tv", "x.mkv", 3, "Pilot/2");
    assert_eq!(dest, "/tv/Foo S2E03 Pilot-2.mkv");
}

#[test]
fn test_render_empty_template_keeps_extension() {
    let a = args_with("", "Foo", 1, 2);
    assert_eq!(a.get_destination("/tv", "clip.mkv", 1, ""), "/tv/.mkv");
}

#[test]
fn test_render_without_extension() {
    let a = args_with("{series} S{season}E{episode}", "Foo", 2, 2);
    assert_eq!(a.get_destination("/tv", "raw_video", 3, ""), "/tv/Foo S2E03");
}

#[test]
fn test_render_is_deterministic() {
    let a = args_with("{series} S{season}E{episode} {title}", "Foo", 2, 2);
    let first = a.get_destination("/tv", "x.mkv", 3, "Pilot");
    let second = a.get_destination("/tv", "x.mkv", 3, "Pilot");
    assert_eq!(first, second);
}

#[test]
fn test_get_seasons_filters_and_sorts() {
    let entries = vec![
        ScanEntry { path: String::from("/tv/Season 2"), kind: EntryKind::Directory },
        ScanEntry { path: String::from("/tv/notes.txt"), kind: EntryKind::File },
        ScanEntry { path: String::from("/tv/Season 10"), kind: EntryKind::Directory },
        ScanEntry { path: String::from("/tv/Season 1"), kind: EntryKind::Directory },
    ];
    let seasons = get_seasons(&entries);
    assert_eq!(seasons, vec!["/tv/Season 1", "/tv/Season 10", "/tv/Season 2"]);
}

#[test]
fn test_get_episodes_filters_and_sorts() {
    let entries = vec![
        ScanEntry { path: String::from("/tv/s1/b.mkv"), kind: EntryKind::File },
        ScanEntry { path: String::from("/tv/s1/extras"), kind: EntryKind::Directory },
        ScanEntry { path: String::from("/tv/s1/a.mkv"), kind: EntryKind::File },
    ];
    let episodes = get_episodes(&entries);
    assert_eq!(episodes, vec!["/tv/s1/a.mkv", "/tv/s1/b.mkv"]);
    let seasons = get_seasons(&entries);
    assert_eq!(seasons, vec!["/tv/s1/extras"]);
}

#[test]
fn test_get_targets_without_titles() {
    let a = args_with("{series} S{season}E{episode}", "Foo", 1, 2);
    let episodes = vec![String::from("/tv/s1/b.avi"), String::from("/tv/s1/a.mkv")];
    let titles: Vec<Option<String>> = Vec::new();
    let r = a.get_targets("/tv/s1", &episodes, false, &titles, 1);
    let out = r.expect("no lookups were needed");
    assert_eq!(out.len(), episodes.len());
    assert_eq!(out[0], "/tv/s1/Foo S1E01.avi");
    assert_eq!(out[1], "/tv/s1/Foo S1E02.mkv");
}

#[test]
fn test_get_targets_with_titles() {
    let a = args_with("{series} S{season}E{episode} {title}", "Foo", 1, 2);
    let episodes = vec![String::from("/tv/s1/a.mkv"), String::from("/tv/s1/b.mkv")];
    let titles = vec![Some(String::from("One")), Some(String::from("Two"))];
    let r = a.get_targets("/tv/s1", &episodes, true, &titles, 4);
    let out = r.expect("all lookups succeeded");
    assert_eq!(out, vec!["/tv/s1/Foo S1E04 One.mkv", "/tv/s1/Foo S1E05 Two.mkv"]);
}

#[test]
fn test_get_targets_series_lookup_failed() {
    let a = args_with("{title}", "Foo", 1, 2);
    let episodes = vec![String::from("/tv/s1/a.mkv")];
    let titles = vec![None];
    let r = a.get_targets("/tv/s1", &episodes, false, &titles, 1);
    assert_eq!(r, Err(ResolveError::SeriesLookupFailed));
}

#[test]
fn test_get_targets_episode_lookup_failed_names_file() {
    let a = args_with("{series} {title}", "Foo", 1, 2);
    let episodes = vec![
        String::from("/tv/s1/a.mkv"),
        String::from("/tv/s1/b.mkv"),
        String::from("/tv/s1/c.mkv"),
    ];
    let titles = vec![Some(String::from("One")), None, Some(String::from("Three"))];
    let r = a.get_targets("/tv/s1", &episodes, true, &titles, 1);
    assert_eq!(
        r,
        Err(ResolveError::EpisodeLookupFailed { file: String::from("/tv/s1/b.mkv") })
    );
}

#[test]
fn test_shorten_path() {
    assert_eq!(shorten_path("/work/show/ep.mkv", "/work", "/home/me"), "./show/ep.mkv");
    assert_eq!(shorten_path("/home/me/tv/ep.mkv", "/work", "/home/me"), "~/tv/ep.mkv");
    assert_eq!(shorten_path("/elsewhere/ep.mkv", "/work", "/home/me"), "/elsewhere/ep.mkv");
    assert_eq!(shorten_path("/work", "/work/", "/home/me"), ".");
}
