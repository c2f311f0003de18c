//! The template grammar and its tokenizer.
//!
//! A template is scanned character by character. The sigils `{series}`,
//! `{season}`, `{episode}` and `{title}` produce the corresponding
//! placeholder tokens; `{{` and `}}` escape a literal brace; every other
//! character becomes a literal token carrying that exact character. A `{`
//! that opens no recognized sigil, and a `}` that closes none, are
//! errors: no partial token sequence is returned.

use vstd::prelude::*;
use crate::text::to_chars;
use crate::text::window_eq;

verus! {

/// One element of a parsed template, in rendering order.
#[derive(Clone, Copy, PartialEq, Eq, Structural, Debug)]
pub enum TemplateToken {
    /// A literal character, emitted verbatim.
    Character(char),
    /// The series name.
    Series,
    /// The season number, unpadded.
    Season,
    /// The episode number, zero-padded.
    Episode,
    /// The episode title fetched from the metadata service.
    TVDB,
}

/// Why a template failed to parse.
#[derive(Clone, Copy, PartialEq, Eq, Structural, Debug)]
pub enum ParseError {
    /// A `{` was opened and never closed.
    UnclosedPlaceholder,
    /// A `{...}` group names no recognized placeholder.
    UnknownPlaceholder,
    /// A `}` appeared outside any placeholder and was not doubled.
    UnexpectedCloseBrace,
}

/// The sigil that renders the series name.
pub open spec fn series_sigil() -> Seq<char> {
    seq!['{', 's', 'e', 'r', 'i', 'e', 's', '}']
}

/// The sigil that renders the season number.
pub open spec fn season_sigil() -> Seq<char> {
    seq!['{', 's', 'e', 'a', 's', 'o', 'n', '}']
}

/// The sigil that renders the padded episode number.
pub open spec fn episode_sigil() -> Seq<char> {
    seq!['{', 'e', 'p', 'i', 's', 'o', 'd', 'e', '}']
}

/// The sigil that renders the episode title.
pub open spec fn title_sigil() -> Seq<char> {
    seq!['{', 't', 'i', 't', 'l', 'e', '}']
}

/// Whether `p` is a prefix of `s`.
pub open spec fn starts_with(s: Seq<char>, p: Seq<char>) -> bool {
    p.len() <= s.len() && s.subrange(0, p.len() as int) == p
}

/// Whether `c` occurs in `s`.
pub open spec fn contains_char(s: Seq<char>, c: char) -> bool {
    exists|i: int| 0 <= i < s.len() && s[i] == c
}

/// Prepends a token to a tokenization result, keeping an error as it is.
pub open spec fn tok_cons(t: TemplateToken, rest: Result<Seq<TemplateToken>, ParseError>) -> Result<
    Seq<TemplateToken>,
    ParseError,
> {
    match rest {
        Ok(ts) => Ok(seq![t] + ts),
        Err(e) => Err(e),
    }
}

/// The tokenization of a template string: the ordered token sequence, or
/// the first error met while scanning left to right.
pub open spec fn spec_tokenize(s: Seq<char>) -> Result<Seq<TemplateToken>, ParseError>
    decreases s.len(),
{
    if s.len() == 0 {
        Ok(Seq::<TemplateToken>::empty())
    } else if starts_with(s, seq!['{', '{']) {
        tok_cons(TemplateToken::Character('{'), spec_tokenize(s.skip(2)))
    } else if starts_with(s, seq!['}', '}']) {
        tok_cons(TemplateToken::Character('}'), spec_tokenize(s.skip(2)))
    } else if starts_with(s, series_sigil()) {
        tok_cons(TemplateToken::Series, spec_tokenize(s.skip(8)))
    } else if starts_with(s, season_sigil()) {
        tok_cons(TemplateToken::Season, spec_tokenize(s.skip(8)))
    } else if starts_with(s, episode_sigil()) {
        tok_cons(TemplateToken::Episode, spec_tokenize(s.skip(9)))
    } else if starts_with(s, title_sigil()) {
        tok_cons(TemplateToken::TVDB, spec_tokenize(s.skip(7)))
    } else if s[0] == '{' {
        if contains_char(s, '}') {
            Err(ParseError::UnknownPlaceholder)
        } else {
            Err(ParseError::UnclosedPlaceholder)
        }
    } else if s[0] == '}' {
        Err(ParseError::UnexpectedCloseBrace)
    } else {
        tok_cons(TemplateToken::Character(s[0]), spec_tokenize(s.skip(1)))
    }
}

/// Appends a tokenization result to an already-produced prefix, keeping
/// an error as it is.
pub open spec fn tok_concat(
    pre: Seq<TemplateToken>,
    rest: Result<Seq<TemplateToken>, ParseError>,
) -> Result<Seq<TemplateToken>, ParseError> {
    match rest {
        Ok(ts) => Ok(pre + ts),
        Err(e) => Err(e),
    }
}

proof fn lemma_tok_concat_nil(r: Result<Seq<TemplateToken>, ParseError>)
    ensures
        tok_concat(Seq::empty(), r) == r,
{
    match r {
        Ok(ts) => {
            assert(Seq::empty() + ts =~= ts);
        },
        Err(_) => {},
    }
}

proof fn lemma_tok_concat_push(
    pre: Seq<TemplateToken>,
    t: TemplateToken,
    r: Result<Seq<TemplateToken>, ParseError>,
)
    ensures
        tok_concat(pre, tok_cons(t, r)) == tok_concat(pre.push(t), r),
{
    match r {
        Ok(ts) => {
            assert(pre + (seq![t] + ts) =~= pre.push(t) + ts);
        },
        Err(_) => {},
    }
}

fn starts_with_exec(v: &Vec<char>, i: usize, pat: &Vec<char>) -> (r: bool)
    requires
        i <= v@.len(),
    ensures
        r == starts_with(v@.skip(i as int), pat@),
{
    if pat.len() <= v.len() - i {
        let r = window_eq(v, i, pat);
        proof {
            assert(v@.skip(i as int).subrange(0, pat@.len() as int) =~= v@.subrange(
                i as int,
                i as int + pat@.len() as int,
            ));
        }
        r
    } else {
        false
    }
}

fn contains_close(v: &Vec<char>, i: usize) -> (r: bool)
    requires
        i <= v@.len(),
    ensures
        r == contains_char(v@.skip(i as int), '}'),
{
    let mut k: usize = i;
    while k < v.len()
        invariant
            i <= k <= v@.len(),
            forall|j: int| i <= j < k ==> v@[j] != '}',
        decreases v@.len() - k,
    {
        if v[k] == '}' {
            proof {
                assert(v@.skip(i as int)[k - i] == '}');
            }
            return true;
        }
        k = k + 1;
    }
    proof {
        assert forall|j: int| 0 <= j < v@.skip(i as int).len() implies v@.skip(i as int)[j]
            != '}' by {
            assert(v@.skip(i as int)[j] == v@[i + j]);
        }
    }
    false
}

/// Parses a template string into its token sequence; scanning stops at
/// the first malformed sigil, and nothing is returned besides the error.
pub fn parse(template: &str) -> (r: Result<Vec<TemplateToken>, ParseError>)
    ensures
        (match r {
            Ok(tokens) => spec_tokenize(template@) == Ok::<Seq<TemplateToken>, ParseError>(
                tokens@,
            ),
            Err(e) => spec_tokenize(template@) == Err::<Seq<TemplateToken>, ParseError>(e),
        }),
{
    let v = to_chars(template);
    let sig_open: Vec<char> = vec!['{', '{'];
    let sig_close: Vec<char> = vec!['}', '}'];
    let sig_series: Vec<char> = vec!['{', 's', 'e', 'r', 'i', 'e', 's', '}'];
    let sig_season: Vec<char> = vec!['{', 's', 'e', 'a', 's', 'o', 'n', '}'];
    let sig_episode: Vec<char> = vec!['{', 'e', 'p', 'i', 's', 'o', 'd', 'e', '}'];
    let sig_title: Vec<char> = vec!['{', 't', 'i', 't', 'l', 'e', '}'];
    proof {
        assert(sig_open@ =~= seq!['{', '{']);
        assert(sig_close@ =~= seq!['}', '}']);
        assert(sig_series@ =~= series_sigil());
        assert(sig_season@ =~= season_sigil());
        assert(sig_episode@ =~= episode_sigil());
        assert(sig_title@ =~= title_sigil());
    }
    let mut out: Vec<TemplateToken> = Vec::new();
    let mut i: usize = 0;
    proof {
        lemma_tok_concat_nil(spec_tokenize(template@));
        assert(v@.skip(0) =~= v@);
    }
    while i < v.len()
        invariant
            v@ == template@,
            0 <= i <= v@.len(),
            sig_open@ == seq!['{', '{'],
            sig_close@ == seq!['}', '}'],
            sig_series@ == series_sigil(),
            sig_season@ == season_sigil(),
            sig_episode@ == episode_sigil(),
            sig_title@ == title_sigil(),
            spec_tokenize(template@) == tok_concat(out@, spec_tokenize(v@.skip(i as int))),
        decreases v@.len() - i,
    {
        let ghost t = v@.skip(i as int);
        if starts_with_exec(&v, i, &sig_open) {
            proof {
                lemma_tok_concat_push(out@, TemplateToken::Character('{'), spec_tokenize(t.skip(2)));
                assert(t.skip(2) =~= v@.skip(i as int + 2));
            }
            out.push(TemplateToken::Character('{'));
            i = i + 2;
        } else if starts_with_exec(&v, i, &sig_close) {
            proof {
                lemma_tok_concat_push(out@, TemplateToken::Character('}'), spec_tokenize(t.skip(2)));
                assert(t.skip(2) =~= v@.skip(i as int + 2));
            }
            out.push(TemplateToken::Character('}'));
            i = i + 2;
        } else if starts_with_exec(&v, i, &sig_series) {
            proof {
                lemma_tok_concat_push(out@, TemplateToken::Series, spec_tokenize(t.skip(8)));
                assert(t.skip(8) =~= v@.skip(i as int + 8));
            }
            out.push(TemplateToken::Series);
            i = i + 8;
        } else if starts_with_exec(&v, i, &sig_season) {
            proof {
                lemma_tok_concat_push(out@, TemplateToken::Season, spec_tokenize(t.skip(8)));
                assert(t.skip(8) =~= v@.skip(i as int + 8));
            }
            out.push(TemplateToken::Season);
            i = i + 8;
        } else if starts_with_exec(&v, i, &sig_episode) {
            proof {
                lemma_tok_concat_push(out@, TemplateToken::Episode, spec_tokenize(t.skip(9)));
                assert(t.skip(9) =~= v@.skip(i as int + 9));
            }
            out.push(TemplateToken::Episode);
            i = i + 9;
        } else if starts_with_exec(&v, i, &sig_title) {
            proof {
                lemma_tok_concat_push(out@, TemplateToken::TVDB, spec_tokenize(t.skip(7)));
                assert(t.skip(7) =~= v@.skip(i as int + 7));
            }
            out.push(TemplateToken::TVDB);
            i = i + 7;
        } else if v[i] == '{' {
            if contains_close(&v, i) {
                return Err(ParseError::UnknownPlaceholder);
            } else {
                return Err(ParseError::UnclosedPlaceholder);
            }
        } else if v[i] == '}' {
            return Err(ParseError::UnexpectedCloseBrace);
        } else {
            let c = v[i];
            proof {
                lemma_tok_concat_push(out@, TemplateToken::Character(c), spec_tokenize(t.skip(1)));
                assert(t.skip(1) =~= v@.skip(i as int + 1));
            }
            out.push(TemplateToken::Character(c));
            i = i + 1;
        }
    }
    proof {
        assert(v@.skip(i as int).len() == 0);
        assert(out@ + Seq::<TemplateToken>::empty() =~= out@);
    }
    Ok(out)
}

} // verus!
