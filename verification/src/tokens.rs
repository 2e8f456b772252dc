//! Which sync token an enumeration may keep: only one that every fetcher vouches for.
use crate::text::{option_view, str_eq, text_views};
use vstd::prelude::*;

verus! {

/// Why an enumeration is not complete.
#[derive(Debug, Clone, Copy, PartialEq, Eq, Structural)]
pub enum EnumerationFailure {
    FetcherError,
    ConsumerDropped,
    UnpairedRecords,
}

/// How a fetcher ended.
#[derive(Debug, Clone, Copy, PartialEq, Eq, Structural)]
pub enum EnumerationCompletion {
    ProvenEof,
    UserBoundReached,
    Incomplete(EnumerationFailure),
}

/// The views of the reports of fetchers.
pub open spec fn report_views(reports: Seq<(Option<String>, EnumerationCompletion)>) -> Seq<
    (Option<Seq<char>>, EnumerationCompletion),
> {
    reports.map_values(|r: (Option<String>, EnumerationCompletion)| (option_view(r.0), r.1))
}

/// The token that a list of tokens agrees on.
pub open spec fn unanimous_token(tokens: Seq<Seq<char>>) -> Option<Seq<char>> {
    if tokens.len() > 0 && forall|i: int|
        0 <= i < tokens.len() ==> #[trigger] tokens[i] == tokens[0] {
        Some(tokens[0])
    } else {
        None
    }
}

/// The tokens that were reported.
pub open spec fn reported_tokens(
    reports: Seq<(Option<Seq<char>>, EnumerationCompletion)>,
) -> Seq<Seq<char>>
    decreases reports.len(),
{
    if reports.len() == 0 {
        Seq::empty()
    } else {
        let before = reported_tokens(reports.drop_last());
        match reports.last().0 {
            Some(token) => before.push(token),
            None => before,
        }
    }
}

/// Every fetcher reached the end of its range.
pub open spec fn all_proven(reports: Seq<(Option<Seq<char>>, EnumerationCompletion)>) -> bool {
    forall|i: int|
        0 <= i < reports.len() ==> (#[trigger] reports[i]).1 == EnumerationCompletion::ProvenEof
}

/// What the fetchers of an enumeration reported.
pub struct FetcherSyncTokenCapture {
    pub observations: Vec<(Option<String>, EnumerationCompletion)>,
    pub expected_fetchers: usize,
    pub suppressed: bool,
}

/// A [`FetcherSyncTokenCapture`] with its texts taken by their characters.
#[verifier::ext_equal]
pub struct CaptureView {
    pub reports: Seq<(Option<Seq<char>>, EnumerationCompletion)>,
    pub expected: int,
    pub suppressed: bool,
}

impl View for FetcherSyncTokenCapture {
    type V = CaptureView;

    open spec fn view(&self) -> CaptureView {
        CaptureView {
            reports: report_views(self.observations@),
            expected: self.expected_fetchers as int,
            suppressed: self.suppressed,
        }
    }
}

/// The token that an enumeration may keep. A token that only some of the fetchers saw would
/// skip what the others did not; a page without one does not speak against it.
pub open spec fn resolved_token(capture: CaptureView) -> Option<Seq<char>> {
    if !capture.suppressed && capture.reports.len() == capture.expected && all_proven(
        capture.reports,
    ) {
        unanimous_token(reported_tokens(capture.reports))
    } else {
        None
    }
}

/// The token that every one of them is.
pub fn unanimous_fetcher_sync_token(tokens: &Vec<String>) -> (token: Option<String>)
    ensures
        option_view(token) == unanimous_token(text_views(tokens@)),
{
    if tokens.len() == 0 {
        return None;
    }
    let ghost views = text_views(tokens@);
    let mut i: usize = 0;
    while i < tokens.len()
        invariant
            tokens.len() > 0,
            i <= tokens.len(),
            views == text_views(tokens@),
            forall|j: int| 0 <= j < i ==> #[trigger] views[j] == views[0],
        decreases tokens.len() - i,
    {
        if !str_eq(&tokens[i], &tokens[0]) {
            assert(views[i as int] != views[0]);
            return None;
        }
        i = i + 1;
    }
    Some(tokens[0].clone())
}

impl FetcherSyncTokenCapture {
    /// Nothing is expected and nothing was reported.
    pub fn new() -> (capture: Self)
        ensures
            capture@ == (CaptureView { reports: Seq::empty(), expected: 0, suppressed: false }),
    {
        let capture = FetcherSyncTokenCapture {
            observations: Vec::new(),
            expected_fetchers: 0,
            suppressed: false,
        };
        assert(report_views(capture.observations@) =~= Seq::empty());
        capture
    }

    /// Say how many fetchers will report.
    pub fn expect(&mut self, fetchers: usize)
        ensures
            final(self)@ == (CaptureView { expected: fetchers as int, ..old(self)@ }),
    {
        self.expected_fetchers = fetchers;
    }

    /// Take the report of a fetcher that ended.
    pub fn complete(&mut self, token: Option<String>, completion: EnumerationCompletion)
        ensures
            final(self)@ == (CaptureView {
                reports: old(self)@.reports.push((option_view(token), completion)),
                ..old(self)@
            }),
    {
        let ghost before = self@.reports;
        let ghost view = option_view(token);
        self.observations.push((token, completion));
        assert(self@.reports =~= before.push((view, completion)));
    }

    /// Let no token be kept: the enumeration stopped at the caller's limit.
    pub fn suppress(&mut self)
        ensures
            final(self)@ == (CaptureView { suppressed: true, ..old(self)@ }),
    {
        self.suppressed = true;
    }

    /// The token that the enumeration may keep once its fetchers ended. None is kept where a
    /// fetcher ended without a report: what it had seen is not known.
    pub fn final_token(&self, fetcher_panicked: bool) -> (token: Option<String>)
        ensures
            option_view(token) == (if fetcher_panicked {
                None
            } else {
                resolved_token(self@)
            }),
    {
        if fetcher_panicked {
            return None;
        }
        self.resolve()
    }

    /// The token that the enumeration may keep.
    pub fn resolve(&self) -> (token: Option<String>)
        ensures
            option_view(token) == resolved_token(self@),
    {
        if self.suppressed || self.observations.len() != self.expected_fetchers {
            return None;
        }
        let ghost views = report_views(self.observations@);
        let mut present: Vec<String> = Vec::new();
        let mut i: usize = 0;
        while i < self.observations.len()
            invariant
                !self.suppressed,
                self.observations.len() == self.expected_fetchers,
                i <= self.observations.len(),
                views == report_views(self.observations@),
                forall|j: int|
                    0 <= j < i ==> (#[trigger] views[j]).1 == EnumerationCompletion::ProvenEof,
                text_views(present@) =~= reported_tokens(views.take(i as int)),
            decreases self.observations.len() - i,
        {
            let (token, completion) = &self.observations[i];
            proof {
                assert(views[i as int] == (option_view(*token), *completion));
                assert(views.take(i + 1).drop_last() =~= views.take(i as int));
            }
            match completion {
                EnumerationCompletion::ProvenEof => {},
                _ => {
                    return None;
                },
            }
            match token {
                Some(token) => {
                    let ghost before = text_views(present@);
                    present.push(token.clone());
                    assert(text_views(present@) =~= before.push(token@));
                },
                None => {},
            }
            i = i + 1;
        }
        proof {
            assert(views.take(i as int) =~= views);
        }
        unanimous_fetcher_sync_token(&present)
    }
}

/// Every token that is there was reported by some fetcher.
proof fn lemma_reported(
    reports: Seq<(Option<Seq<char>>, EnumerationCompletion)>,
    i: int,
) -> (place: int)
    requires
        0 <= i < reports.len(),
        reports[i].0 is Some,
    ensures
        0 <= place < reported_tokens(reports).len(),
        reported_tokens(reports)[place] == reports[i].0->0,
    decreases reports.len(),
{
    if i == reports.len() - 1 {
        reported_tokens(reports).len() - 1
    } else {
        lemma_reported(reports.drop_last(), i)
    }
}

/// A token is kept only where nothing can be lost by it: every fetcher that was expected has
/// reported, each reached the end of its range, and each that saw a token saw this one.
pub proof fn law_kept_token_is_vouched_for(capture: CaptureView, i: int)
    requires
        resolved_token(capture) is Some,
        0 <= i < capture.reports.len(),
    ensures
        !capture.suppressed,
        capture.reports.len() == capture.expected,
        capture.reports[i].1 == EnumerationCompletion::ProvenEof,
        capture.reports[i].0 is Some ==> capture.reports[i].0 == resolved_token(capture),
{
    if capture.reports[i].0 is Some {
        let place = lemma_reported(capture.reports, i);
        assert(reported_tokens(capture.reports)[place] == reported_tokens(capture.reports)[0]);
    }
}

/// A fetcher that failed, or that stopped at the caller's limit, keeps every token back,
/// whatever is reported after it.
pub proof fn law_one_failure_blocks_the_token(
    capture: CaptureView,
    token: Option<Seq<char>>,
    completion: EnumerationCompletion,
    later: Seq<(Option<Seq<char>>, EnumerationCompletion)>,
)
    requires
        completion != EnumerationCompletion::ProvenEof,
    ensures
        resolved_token(
            CaptureView {
                reports: capture.reports.push((token, completion)) + later,
                ..capture
            },
        ) is None,
{
    let reports = capture.reports.push((token, completion)) + later;
    assert(reports[capture.reports.len() as int] == (token, completion));
}

/// A token is kept where nothing speaks against it: every fetcher that was expected reached the
/// end of its range, nothing holds tokens back, one of them saw the token, and none saw
/// another.
pub proof fn law_an_agreed_token_is_kept(capture: CaptureView, token: Seq<char>, i: int)
    requires
        !capture.suppressed,
        capture.reports.len() == capture.expected,
        forall|j: int|
            0 <= j < capture.reports.len() ==> (#[trigger] capture.reports[j]).1
                == EnumerationCompletion::ProvenEof,
        0 <= i < capture.reports.len(),
        capture.reports[i].0 == Some(token),
        forall|j: int|
            0 <= j < capture.reports.len() && (#[trigger] capture.reports[j]).0 is Some
                ==> capture.reports[j].0 == Some(token),
    ensures
        resolved_token(capture) == Some(token),
{
    let tokens = reported_tokens(capture.reports);
    let at = lemma_reported(capture.reports, i);
    assert forall|k: int| 0 <= k < tokens.len() implies #[trigger] tokens[k] == token by {
        lemma_reported_by(capture.reports, k);
    }
    assert(tokens[0] == token);
}

/// Every token among the reported ones is that of a report.
proof fn lemma_reported_by(reports: Seq<(Option<Seq<char>>, EnumerationCompletion)>, k: int)
    requires
        0 <= k < reported_tokens(reports).len(),
    ensures
        exists|j: int|
            0 <= j < reports.len() && (#[trigger] reports[j]).0 == Some(
                reported_tokens(reports)[k],
            ),
    decreases reports.len(),
{
    let before = reports.drop_last();
    if k < reported_tokens(before).len() {
        lemma_reported_by(before, k);
        let j = choose|j: int|
            0 <= j < before.len() && (#[trigger] before[j]).0 == Some(reported_tokens(before)[k]);
        assert(reports[j].0 == Some(reported_tokens(reports)[k]));
    } else {
        assert(reports[reports.len() - 1].0 == Some(reported_tokens(reports)[k]));
    }
}

/// Where no fetcher saw a token, or two saw different ones, none is kept.
pub proof fn law_without_agreement_no_token_is_kept(capture: CaptureView, i: int, j: int)
    ensures
        (forall|k: int| 0 <= k < capture.reports.len() ==> (#[trigger] capture.reports[k]).0 is None)
            ==> resolved_token(capture) is None,
        0 <= i < capture.reports.len() && 0 <= j < capture.reports.len()
            && capture.reports[i].0 is Some && capture.reports[j].0 is Some
            && capture.reports[i].0 != capture.reports[j].0 ==> resolved_token(capture) is None,
{
    if resolved_token(capture) is Some {
        let tokens = reported_tokens(capture.reports);
        lemma_reported_by(capture.reports, 0);
        if 0 <= i < capture.reports.len() && 0 <= j < capture.reports.len()
            && capture.reports[i].0 is Some && capture.reports[j].0 is Some {
            law_kept_token_is_vouched_for(capture, i);
            law_kept_token_is_vouched_for(capture, j);
        }
    }
}

} // verus!
