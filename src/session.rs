//! The run of one invocation as a state machine: the caller performs each
//! action (list the images, ask the operator, remove one image) and hands
//! the result back as the next event.

use crate::dedup::{dedup_sort, is_dedup_sort_of};
use crate::image::{matches_view, records_view, ImageRecord, ImageView, TagMatch};
use crate::matcher::{find_matches, matches_among};
use crate::prompt::{confirm, is_yes};
use vstd::prelude::*;

verus! {

/// Where the run stands.
#[derive(Clone, Copy, Debug, PartialEq, Eq, Structural)]
pub enum Phase {
    Listing,
    Prompting,
    Removing,
    Finished,
}

/// How the run ended.
#[derive(Clone, Copy, Debug, PartialEq, Eq, Structural)]
pub enum Outcome {
    /// The query argument was missing.
    UsageError,
    /// The image service could not be reached or refused the listing.
    ServiceUnavailable,
    /// No tag contains the query.
    NoMatches,
    /// The operator did not confirm; nothing was removed.
    Declined,
    /// The operator's answer could not be read.
    InputClosed,
    /// Every candidate was removed.
    Removed,
    /// A removal failed; the candidates after it were left alone.
    RemovalFailed,
}

/// The runs that end well.
pub open spec fn is_success(o: Outcome) -> bool {
    o == Outcome::NoMatches || o == Outcome::Declined || o == Outcome::Removed
}

impl Outcome {
    /// The process exit status: 0 on success, 1 otherwise.
    pub fn exit_code(&self) -> (r: i32)
        ensures
            r == (if is_success(*self) { 0i32 } else { 1i32 }),
    {
        match self {
            Outcome::NoMatches | Outcome::Declined | Outcome::Removed => 0,
            _ => 1,
        }
    }
}

/// A failure reported by the image service.
#[derive(Debug)]
pub struct ServiceError {
    pub message: String,
}

/// What the caller is to do next.
#[derive(Debug)]
pub enum Action {
    /// List every image the service holds and report it with `on_listing`.
    ListImages,
    /// Show the matches, ask the operator and report with `on_reply`.
    Prompt,
    /// Force-remove the image with this identifier and report with `on_removed`.
    Remove(String),
    /// Stop with this outcome.
    Exit(Outcome),
}

/// The images of a match list, one per match.
pub open spec fn match_images(ms: Seq<(ImageView, Seq<char>)>) -> Seq<ImageView> {
    ms.map_values(|p: (ImageView, Seq<char>)| p.0)
}

/// The mathematical value of a [`Cleaner`].
pub struct CleanerView {
    pub phase: Phase,
    pub query: Seq<char>,
    pub matches: Seq<(ImageView, Seq<char>)>,
    pub candidates: Seq<ImageView>,
    pub next: nat,
}

impl CleanerView {
    /// Prompting and removing work on the deduplicated images of a non-empty
    /// match list; removing works on a candidate that exists.
    pub open spec fn wf(self) -> bool {
        &&& (self.phase == Phase::Prompting || self.phase == Phase::Removing) ==> {
            &&& self.candidates.len() > 0
            &&& is_dedup_sort_of(match_images(self.matches), self.candidates)
        }
        &&& self.phase == Phase::Removing ==> self.next < self.candidates.len()
    }
}

/// One invocation of the cleaner.
pub struct Cleaner {
    phase: Phase,
    query: String,
    matches: Vec<TagMatch>,
    candidates: Vec<ImageRecord>,
    next: usize,
}

impl View for Cleaner {
    type V = CleanerView;

    closed spec fn view(&self) -> CleanerView {
        CleanerView {
            phase: self.phase,
            query: self.query@,
            matches: matches_view(self.matches@),
            candidates: records_view(self.candidates@),
            next: self.next as nat,
        }
    }
}

fn images_of(matches: &Vec<TagMatch>) -> (r: Vec<ImageRecord>)
    ensures
        records_view(r@) == match_images(matches_view(matches@)),
{
    let mut out: Vec<ImageRecord> = Vec::new();
    let mut i: usize = 0;
    while i < matches.len()
        invariant
            i <= matches@.len(),
            records_view(out@) == match_images(matches_view(matches@.take(i as int))),
        decreases matches@.len() - i,
    {
        out.push(matches[i].image.clone());
        assert(match_images(matches_view(matches@.take(i + 1))) =~= match_images(
            matches_view(matches@.take(i as int)),
        ).push(matches@[i as int].image@));
        i = i + 1;
        assert(records_view(out@) =~= match_images(matches_view(matches@.take(i as int))));
    }
    assert(matches@.take(i as int) =~= matches@);
    out
}

impl Cleaner {
    /// Starts a run on the command-line query: without one the run ends at
    /// once with a usage error; with one, the images are to be listed.
    pub fn start(query: Option<String>) -> (r: (Cleaner, Action))
        ensures
            r.0@.wf(),
            r.0@.matches.len() == 0,
            r.0@.candidates.len() == 0,
            query is None ==> r.0@.phase == Phase::Finished && r.1 == Action::Exit(
                Outcome::UsageError,
            ),
            query is Some ==> r.0@.phase == Phase::Listing && r.0@.query == query->0@ && r.1
                == Action::ListImages,
    {
        let matches: Vec<TagMatch> = Vec::new();
        let candidates: Vec<ImageRecord> = Vec::new();
        assert(matches_view(matches@) =~= Seq::empty());
        assert(records_view(candidates@) =~= Seq::empty());
        match query {
            None => (
                Cleaner { phase: Phase::Finished, query: String::new(), matches, candidates, next: 0 },
                Action::Exit(Outcome::UsageError),
            ),
            Some(q) => (
                Cleaner { phase: Phase::Listing, query: q, matches, candidates, next: 0 },
                Action::ListImages,
            ),
        }
    }

    /// Takes the service's listing. A failure ends the run; otherwise the
    /// matches are found, and the run ends when there are none or goes on
    /// to ask the operator about their deduplicated, sorted images.
    pub fn on_listing(&mut self, listed: Result<Vec<ImageRecord>, ServiceError>) -> (a: Action)
        requires
            old(self)@.phase == Phase::Listing,
        ensures
            final(self)@.wf(),
            final(self)@.query == old(self)@.query,
            listed is Err ==> final(self)@.phase == Phase::Finished && a == Action::Exit(
                Outcome::ServiceUnavailable,
            ),
            listed is Ok ==> {
                let ms = matches_among(records_view(listed->Ok_0@), old(self)@.query);
                &&& final(self)@.matches == ms
                &&& ms.len() == 0 ==> final(self)@.phase == Phase::Finished && a == Action::Exit(
                    Outcome::NoMatches,
                )
                &&& ms.len() > 0 ==> final(self)@.phase == Phase::Prompting && a == Action::Prompt
                    && is_dedup_sort_of(match_images(ms), final(self)@.candidates)
            },
    {
        match listed {
            Err(_) => {
                self.phase = Phase::Finished;
                Action::Exit(Outcome::ServiceUnavailable)
            },
            Ok(images) => {
                let matches = find_matches(&images, self.query.as_str());
                if matches.len() == 0 {
                    self.matches = matches;
                    self.phase = Phase::Finished;
                    Action::Exit(Outcome::NoMatches)
                } else {
                    let imgs = images_of(&matches);
                    let candidates = dedup_sort(&imgs);
                    proof {
                        let m = records_view(imgs@);
                        assert(m.len() > 0);
                        assert(crate::dedup::has_id(records_view(candidates@), m[0].id));
                    }
                    self.matches = matches;
                    self.candidates = candidates;
                    self.phase = Phase::Prompting;
                    Action::Prompt
                }
            },
        }
    }

    /// Takes the operator's reply, `None` when it could not be read.
    /// `y` or `Y` starts removing the first candidate; any other reply ends
    /// the run with nothing removed.
    pub fn on_reply(&mut self, reply: Option<String>) -> (a: Action)
        requires
            old(self)@.phase == Phase::Prompting,
            old(self)@.wf(),
        ensures
            final(self)@.wf(),
            final(self)@.candidates == old(self)@.candidates,
            final(self)@.matches == old(self)@.matches,
            reply is None ==> final(self)@.phase == Phase::Finished && a == Action::Exit(
                Outcome::InputClosed,
            ),
            reply is Some && !is_yes(reply->0@) ==> final(self)@.phase == Phase::Finished && a
                == Action::Exit(Outcome::Declined),
            reply is Some && is_yes(reply->0@) ==> {
                &&& final(self)@.phase == Phase::Removing
                &&& final(self)@.next == 0
                &&& a is Remove
                &&& a->Remove_0@ == old(self)@.candidates[0].id
            },
    {
        match reply {
            None => {
                self.phase = Phase::Finished;
                Action::Exit(Outcome::InputClosed)
            },
            Some(r) => match confirm(r.as_str()) {
                Ok(()) => {
                    self.phase = Phase::Removing;
                    self.next = 0;
                    assert(self.candidates@[0]@ == records_view(self.candidates@)[0]);
                    Action::Remove(self.candidates[0].id.clone())
                },
                Err(_) => {
                    self.phase = Phase::Finished;
                    Action::Exit(Outcome::Declined)
                },
            },
        }
    }

    /// Takes the result of removing the current candidate. A failure ends
    /// the run at once, leaving the later candidates alone; a success moves
    /// on to the next candidate, or ends the run after the last one.
    pub fn on_removed(&mut self, result: Result<(), ServiceError>) -> (a: Action)
        requires
            old(self)@.phase == Phase::Removing,
            old(self)@.wf(),
        ensures
            final(self)@.wf(),
            final(self)@.candidates == old(self)@.candidates,
            final(self)@.matches == old(self)@.matches,
            result is Err ==> final(self)@.phase == Phase::Finished && final(self)@.next == old(
                self,
            )@.next && a == Action::Exit(Outcome::RemovalFailed),
            result is Ok ==> final(self)@.next == old(self)@.next + 1,
            result is Ok && old(self)@.next + 1 == old(self)@.candidates.len() ==> final(self)@.phase
                == Phase::Finished && a == Action::Exit(Outcome::Removed),
            result is Ok && old(self)@.next + 1 < old(self)@.candidates.len() ==> {
                &&& final(self)@.phase == Phase::Removing
                &&& a is Remove
                &&& a->Remove_0@ == old(self)@.candidates[old(self)@.next + 1int].id
            },
    {
        match result {
            Err(_) => {
                self.phase = Phase::Finished;
                Action::Exit(Outcome::RemovalFailed)
            },
            Ok(()) => {
                let n = self.candidates.len();
                assert(records_view(self.candidates@).len() == n);
                self.next = self.next + 1;
                if self.next == n {
                    self.phase = Phase::Finished;
                    Action::Exit(Outcome::Removed)
                } else {
                    assert(self.candidates@[self.next as int]@ == records_view(
                        self.candidates@,
                    )[self.next as int]);
                    Action::Remove(self.candidates[self.next].id.clone())
                }
            },
        }
    }

    /// Where the run stands.
    pub fn phase(&self) -> (r: Phase)
        ensures
            r == self@.phase,
    {
        self.phase
    }

    /// The query the run was started with.
    pub fn query(&self) -> (r: &String)
        ensures
            r@ == self@.query,
    {
        &self.query
    }

    /// Each image paired with each of its tags that contains the query, in
    /// the order the listing gave them.
    pub fn matches(&self) -> (r: &Vec<TagMatch>)
        ensures
            matches_view(r@) == self@.matches,
    {
        &self.matches
    }

    /// The images to remove, by identifier descending, one per identifier.
    pub fn candidates(&self) -> (r: &Vec<ImageRecord>)
        ensures
            records_view(r@) == self@.candidates,
    {
        &self.candidates
    }
}

} // verus!
