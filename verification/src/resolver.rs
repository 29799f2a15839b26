//! Decides whether a candidate of the remote catalogue is the local track:
//! by a comparison of the artists, and else by what the operator picks.

use crate::itunes::Track;
use crate::spotify::Candidate;
use crate::text::{
    chars_of, either_contains, either_occurs, join, joined, lowercase_of, occurs_at,
    remove_whitespace, to_lowercase, views, without_whitespace,
};
use vstd::prelude::*;
use vstd::string::StringExecFns;

verus! {

/// How many candidates the operator is shown at most.
pub const MANUAL_CHOICES: usize = 5;

/// How many characters of a title a label shows at most, before the three
/// dots that stand for the rest.
pub const LABEL_TITLE_KEPT: usize = 17;

/// The form in which two artist strings are compared: in lowercase and
/// without whitespace.
pub open spec fn normalized(artist: Seq<char>) -> Seq<char> {
    without_whitespace(lowercase_of(artist))
}

/// Whether one of the two artist strings, normalized, stands in the other.
pub open spec fn artists_match(a: Seq<char>, b: Seq<char>) -> bool {
    either_occurs(normalized(a), normalized(b))
}

/// The names of the candidate's artists, one after the other.
pub open spec fn artist_line(c: Candidate) -> Seq<char> {
    joined(views(c.artists@), Seq::empty())
}

/// The comparison of artists does not depend on the order of its arguments.
pub proof fn lemma_artists_match_symmetric(a: Seq<char>, b: Seq<char>)
    ensures
        artists_match(a, b) == artists_match(b, a),
{
}

/// An artist string matches itself.
pub proof fn lemma_artists_match_reflexive(a: Seq<char>)
    ensures
        artists_match(a, a),
{
    let n = normalized(a);
    assert(n.subrange(0, n.len() as int) == n);
    assert(occurs_at(n, n, 0));
}

/// The normalized form of an artist string.
pub fn normalize(artist: &str) -> (r: Vec<char>)
    ensures
        r@ == normalized(artist@),
{
    let lower = to_lowercase(artist);
    let chars = chars_of(lower.as_str());
    remove_whitespace(&chars)
}

/// Whether the artist of the local track and the artists of the candidate
/// match.
pub fn does_result_match(itunes_track: &Track, spotify_track: &Candidate) -> (r: bool)
    ensures
        r == artists_match(itunes_track@.artist, artist_line(*spotify_track)),
{
    let artist = itunes_track.artist();
    let a = normalize(artist.as_str());
    let line = join(&spotify_track.artists, "");
    proof {
        reveal_strlit("");
        assert(""@ == Seq::<char>::empty());
    }
    let b = normalize(line.as_str());
    either_contains(&a, &b)
}

/// The title as a label shows it: whole if it has at most
/// [`LABEL_TITLE_KEPT`] characters, else its first [`LABEL_TITLE_KEPT`]
/// characters and three dots.
pub open spec fn short_title(title: Seq<char>) -> Seq<char> {
    if title.len() > LABEL_TITLE_KEPT {
        title.take(LABEL_TITLE_KEPT as int) + "..."@
    } else {
        title
    }
}

/// The artists of a candidate as a label shows them: the names with a comma
/// and a space between them, then a dash and the address where there is one.
pub open spec fn credits(c: Candidate) -> Seq<char> {
    match c.url {
        Some(url) => joined(views(c.artists@), ", "@) + " - "@ + url@,
        None => joined(views(c.artists@), ", "@),
    }
}

/// The line that stands for a candidate when the operator chooses.
pub open spec fn label(c: Candidate) -> Seq<char> {
    "'"@ + short_title(c.name@) + "' by "@ + credits(c)
}

/// The line that stands for a candidate when the operator chooses.
pub fn candidate_label(c: &Candidate) -> (r: String)
    ensures
        r@ == label(*c),
{
    let mut out = String::from_str("'");
    let title = c.name.as_str();
    if title.unicode_len() > LABEL_TITLE_KEPT {
        out.append(title.substring_char(0, LABEL_TITLE_KEPT));
        out.append("...");
    } else {
        out.append(title);
    }
    out.append("' by ");
    let names = join(&c.artists, ", ");
    out.append(names.as_str());
    match &c.url {
        Some(url) => {
            out.append(" - ");
            out.append(url.as_str());
        },
        None => {},
    }
    out
}

/// The candidates that the operator is shown: the first
/// [`MANUAL_CHOICES`], or all where there are fewer.
pub open spec fn presented(candidates: Seq<Candidate>) -> Seq<Candidate> {
    if candidates.len() > MANUAL_CHOICES {
        candidates.take(MANUAL_CHOICES as int)
    } else {
        candidates
    }
}

/// The labels of the candidates that the operator is shown, in the order of
/// the candidates.
pub fn manual_choices(candidates: &Vec<Candidate>) -> (r: Vec<String>)
    ensures
        r@.len() == presented(candidates@).len(),
        forall|i: int| 0 <= i < r@.len() ==> (#[trigger] r@[i])@ == label(candidates@[i]),
{
    let shown = if candidates.len() > MANUAL_CHOICES {
        MANUAL_CHOICES
    } else {
        candidates.len()
    };
    let mut out: Vec<String> = Vec::new();
    let mut i: usize = 0;
    while i < shown
        invariant
            i <= shown <= candidates.len(),
            out@.len() == i,
            forall|k: int| 0 <= k < i ==> (#[trigger] out@[k])@ == label(candidates@[k]),
        decreases shown - i,
    {
        out.push(candidate_label(&candidates[i]));
        i = i + 1;
    }
    out
}

/// The candidate that the operator picked: the one at the position of the
/// selection among those shown; none where the operator declined or the
/// position is that of no candidate shown.
pub fn pick_candidate<'a>(candidates: &'a Vec<Candidate>, selection: Option<usize>) -> (r: Option<
    &'a Candidate,
>)
    ensures
        r == match selection {
            Some(i) if i < presented(candidates@).len() => Some(&candidates@[i as int]),
            _ => None,
        },
{
    match selection {
        Some(i) => {
            if i < candidates.len() && i < MANUAL_CHOICES {
                Some(&candidates[i])
            } else {
                None
            }
        },
        None => None,
    }
}

} // verus!
