//! Destination rendering and batch resolution: turning a parsed template
//! and a per-episode context into one destination path, and resolving a
//! whole ordered batch of episode files at once. The metadata service is
//! consulted outside the library; its answers are handed in as values.

use vstd::prelude::*;
use crate::paths::extension_chars;
use crate::paths::extension_exec;
use crate::text::chars_to_string;
use crate::text::dec_chars;
use crate::text::pad_chars;
use crate::text::pad_chars_exec;
use crate::text::push_dec_chars;
use crate::text::replace_sep_exec;
use crate::text::sanitize_chars;
use crate::text::to_chars;
use crate::text::trim_chars_exec;
use crate::tokenizer::TemplateToken;

verus! {

/// The configuration of one renaming run, constructed once from user
/// input and read-only afterwards.
#[derive(Clone, Debug)]
pub struct Arguments {
    /// Infer the series name and season number from the directory tree.
    pub automatic: bool,
    /// Report what would be renamed without renaming anything.
    pub dry_run: bool,
    /// Log the changes made to disk.
    pub log_changes: bool,
    /// Print every change attempted.
    pub verbose: bool,
    /// The base directory of the series to rename.
    pub directory: String,
    /// The name of the series.
    pub series_name: String,
    /// The season number, both rendered and used for metadata lookups.
    pub season_number: usize,
    /// The episode index renaming starts from.
    pub episode_count: usize,
    /// The width episode numbers are zero-padded to.
    pub pad_length: usize,
    /// The parsed naming template.
    pub template: Vec<TemplateToken>,
}

/// Why a batch resolution failed.
#[derive(Clone, PartialEq, Eq, Debug)]
pub enum ResolveError {
    /// The one series search against the metadata service failed; the
    /// whole batch is abandoned.
    SeriesLookupFailed,
    /// The per-episode metadata lookup failed for this file; the batch
    /// stops there and no later file is resolved.
    EpisodeLookupFailed {
        /// The episode file whose lookup failed.
        file: String,
    },
}

/// What one token renders to, given the per-episode context.
pub open spec fn token_chars(
    t: TemplateToken,
    series: Seq<char>,
    season: nat,
    episode: nat,
    width: nat,
    title: Seq<char>,
) -> Seq<char> {
    match t {
        TemplateToken::Character(c) => seq![c],
        TemplateToken::Series => series,
        TemplateToken::Season => dec_chars(season),
        TemplateToken::Episode => pad_chars(episode, '0', width),
        TemplateToken::TVDB => title,
    }
}

/// What a token sequence renders to: each token's rendering, in order.
pub open spec fn render_tokens(
    ts: Seq<TemplateToken>,
    series: Seq<char>,
    season: nat,
    episode: nat,
    width: nat,
    title: Seq<char>,
) -> Seq<char>
    decreases ts.len(),
{
    if ts.len() == 0 {
        Seq::empty()
    } else {
        token_chars(ts[0], series, season, episode, width, title) + render_tokens(
            ts.drop_first(),
            series,
            season,
            episode,
            width,
            title,
        )
    }
}

/// The destination path for one episode file: the directory, a
/// separator, the sanitized rendering of the template, and the source
/// file's extension when it has one.
pub open spec fn spec_destination(
    a: Arguments,
    directory: Seq<char>,
    file: Seq<char>,
    episode: nat,
    title: Seq<char>,
) -> Seq<char> {
    let body = sanitize_chars(
        render_tokens(
            a.template@,
            a.series_name@,
            a.season_number as nat,
            episode,
            a.pad_length as nat,
            title,
        ),
    );
    let ext = extension_chars(file);
    let named = if ext.len() > 0 {
        body + seq!['.'] + ext
    } else {
        body
    };
    directory + seq!['/'] + named
}

/// Whether a template asks for episode titles from the metadata service.
pub open spec fn spec_requires_titles(ts: Seq<TemplateToken>) -> bool {
    exists|i: int| 0 <= i < ts.len() && ts[i] == TemplateToken::TVDB
}

/// The title the renderer receives for episode `i`: the fetched title
/// when titles were requested, the empty string otherwise.
pub open spec fn spec_title_at(needs: bool, titles: Seq<Option<String>>, i: int) -> Seq<char> {
    if needs {
        titles[i]->0@
    } else {
        Seq::<char>::empty()
    }
}

proof fn lemma_render_tokens_unfold(
    ts: Seq<TemplateToken>,
    i: int,
    series: Seq<char>,
    season: nat,
    episode: nat,
    width: nat,
    title: Seq<char>,
)
    requires
        0 <= i < ts.len(),
    ensures
        render_tokens(ts.skip(i), series, season, episode, width, title) == token_chars(
            ts[i],
            series,
            season,
            episode,
            width,
            title,
        ) + render_tokens(ts.skip(i + 1), series, season, episode, width, title),
{
    assert(ts.skip(i).drop_first() =~= ts.skip(i + 1));
    assert(ts.skip(i)[0] == ts[i]);
}

/// Rendering is deterministic and reads nothing but its arguments: any
/// two configurations that agree on the template, series name, season
/// number and pad width render identical inputs to identical paths.
pub proof fn lemma_render_deterministic(
    a1: Arguments,
    a2: Arguments,
    directory: Seq<char>,
    file: Seq<char>,
    episode: nat,
    title: Seq<char>,
)
    requires
        a1.template@ == a2.template@,
        a1.series_name@ == a2.series_name@,
        a1.season_number == a2.season_number,
        a1.pad_length == a2.pad_length,
    ensures
        spec_destination(a1, directory, file, episode, title) == spec_destination(
            a2,
            directory,
            file,
            episode,
            title,
        ),
{
}

impl Arguments {
    /// Whether this configuration's template asks for episode titles.
    pub fn requires_titles(&self) -> (r: bool)
        ensures
            r == spec_requires_titles(self.template@),
    {
        let mut i: usize = 0;
        while i < self.template.len()
            invariant
                0 <= i <= self.template@.len(),
                forall|j: int| 0 <= j < i ==> self.template@[j] != TemplateToken::TVDB,
            decreases self.template@.len() - i,
        {
            if self.template[i] == TemplateToken::TVDB {
                return true;
            }
            i = i + 1;
        }
        false
    }

    /// Renders the destination path of one episode file from the
    /// template: literals verbatim, the series name verbatim, the season
    /// number in plain decimal, the episode number zero-padded to the
    /// configured width, and the title verbatim. The filename body is
    /// sanitized, and the source file's extension, when non-empty, is
    /// appended unchanged.
    pub fn get_destination(&self, directory: &str, file: &str, episode: usize, title: &str) -> (r:
        String)
        ensures
            r@ == spec_destination(*self, directory@, file@, episode as nat, title@),
    {
        let ghost series = self.series_name@;
        let ghost season = self.season_number as nat;
        let ghost width = self.pad_length as nat;
        let ghost ttl = title@;
        let mut body: Vec<char> = Vec::new();
        let mut i: usize = 0;
        proof {
            assert(self.template@.skip(0) =~= self.template@);
            assert(body@ + render_tokens(self.template@, series, season, episode as nat, width, ttl)
                =~= render_tokens(self.template@, series, season, episode as nat, width, ttl));
        }
        while i < self.template.len()
            invariant
                0 <= i <= self.template@.len(),
                series == self.series_name@,
                season == self.season_number as nat,
                width == self.pad_length as nat,
                ttl == title@,
                render_tokens(self.template@, series, season, episode as nat, width, ttl) == body@
                    + render_tokens(
                    self.template@.skip(i as int),
                    series,
                    season,
                    episode as nat,
                    width,
                    ttl,
                ),
            decreases self.template@.len() - i,
        {
            proof {
                lemma_render_tokens_unfold(
                    self.template@,
                    i as int,
                    series,
                    season,
                    episode as nat,
                    width,
                    ttl,
                );
            }
            let ghost before = body@;
            let t = self.template[i];
            match t {
                TemplateToken::Character(c) => {
                    body.push(c);
                    proof {
                        assert(body@ =~= before + seq![c]);
                    }
                },
                TemplateToken::Series => {
                    let mut piece = to_chars(self.series_name.as_str());
                    body.append(&mut piece);
                },
                TemplateToken::Season => {
                    push_dec_chars(&mut body, self.season_number);
                },
                TemplateToken::Episode => {
                    let mut piece = pad_chars_exec(episode, '0', self.pad_length);
                    body.append(&mut piece);
                },
                TemplateToken::TVDB => {
                    let mut piece = to_chars(title);
                    body.append(&mut piece);
                },
            }
            proof {
                assert(before + (token_chars(
                    self.template@[i as int],
                    series,
                    season,
                    episode as nat,
                    width,
                    ttl,
                ) + render_tokens(
                    self.template@.skip(i as int + 1),
                    series,
                    season,
                    episode as nat,
                    width,
                    ttl,
                )) =~= (before + token_chars(
                    self.template@[i as int],
                    series,
                    season,
                    episode as nat,
                    width,
                    ttl,
                )) + render_tokens(
                    self.template@.skip(i as int + 1),
                    series,
                    season,
                    episode as nat,
                    width,
                    ttl,
                ));
            }
            i = i + 1;
        }
        proof {
            assert(self.template@.skip(i as int).len() == 0);
            assert(body@ + Seq::<char>::empty() =~= body@);
        }
        // sanitize the rendered body: trim, then replace separators
        let trimmed = trim_chars_exec(&body);
        let sanitized = replace_sep_exec(&trimmed);
        // assemble: directory, separator, body, extension
        let mut out = to_chars(directory);
        out.push('/');
        let mut named = sanitized;
        let file_chars = to_chars(file);
        let ext = extension_exec(&file_chars);
        if ext.len() > 0 {
            named.push('.');
            let mut ext_mut = ext;
            named.append(&mut ext_mut);
        }
        out.append(&mut named);
        proof {
            assert(out@ =~= spec_destination(*self, directory@, file@, episode as nat, title@));
        }
        chars_to_string(&out)
    }

    /// Resolves the destination paths of a whole batch of episode files,
    /// in their given order, counting episodes up from `episode_index`.
    ///
    /// The caller performs the metadata lookups and hands their outcomes
    /// in: `series_found` says whether the one series search succeeded,
    /// and `titles[i]` holds the title fetched for the `i`-th file, or
    /// nothing if that lookup failed. Neither is consulted unless the
    /// template asks for titles. On success the output pairs
    /// positionally with `episodes`; the first failed lookup ends the
    /// whole batch with an error naming the file, and no partial result
    /// is returned.
    pub fn get_targets(
        &self,
        directory: &str,
        episodes: &Vec<String>,
        series_found: bool,
        titles: &Vec<Option<String>>,
        episode_index: usize,
    ) -> (r: Result<Vec<String>, ResolveError>)
        requires
            spec_requires_titles(self.template@) && series_found ==> titles@.len()
                == episodes@.len(),
            episode_index + episodes@.len() <= usize::MAX,
        ensures
            ({
                let needs = spec_requires_titles(self.template@);
                match r {
                    Ok(out) => {
                        &&& out@.len() == episodes@.len()
                        &&& (needs ==> series_found && (forall|i: int|
                            0 <= i < episodes@.len() ==> titles@[i] is Some))
                        &&& (forall|i: int|
                            0 <= i < episodes@.len() ==> out@[i]@ == spec_destination(
                                *self,
                                directory@,
                                episodes@[i]@,
                                (episode_index + i) as nat,
                                spec_title_at(needs, titles@, i),
                            ))
                    },
                    Err(ResolveError::SeriesLookupFailed) => needs && !series_found,
                    Err(ResolveError::EpisodeLookupFailed { file }) => {
                        &&& needs
                        &&& series_found
                        &&& exists|i: int|
                            0 <= i < episodes@.len() && titles@[i] is None && (forall|j: int|
                                0 <= j < i ==> titles@[j] is Some) && file@ == episodes@[i]@
                    },
                }
            }),
    {
        let needs = self.requires_titles();
        if needs && !series_found {
            return Err(ResolveError::SeriesLookupFailed);
        }
        proof {
            reveal_strlit("");
        }
        let mut out: Vec<String> = Vec::new();
        let mut i: usize = 0;
        while i < episodes.len()
            invariant
                needs == spec_requires_titles(self.template@),
                needs ==> series_found && titles@.len() == episodes@.len(),
                episode_index + episodes@.len() <= usize::MAX,
                0 <= i <= episodes@.len(),
                out@.len() == i,
                ""@ == Seq::<char>::empty(),
                forall|j: int| 0 <= j < i && needs ==> titles@[j] is Some,
                forall|j: int|
                    0 <= j < i ==> out@[j]@ == spec_destination(
                        *self,
                        directory@,
                        episodes@[j]@,
                        (episode_index + j) as nat,
                        spec_title_at(needs, titles@, j),
                    ),
            decreases episodes@.len() - i,
        {
            let title: &str = if needs {
                match &titles[i] {
                    Some(t) => t.as_str(),
                    None => {
                        return Err(
                            ResolveError::EpisodeLookupFailed { file: episodes[i].clone() },
                        );
                    },
                }
            } else {
                ""
            };
            let dest = self.get_destination(
                directory,
                episodes[i].as_str(),
                episode_index + i,
                title,
            );
            out.push(dest);
            i = i + 1;
        }
        Ok(out)
    }
}

} // verus!
