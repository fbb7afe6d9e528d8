//! Per-peer request statistics and the score peers are ranked by.

use vstd::prelude::*;

verus! {

/// How one value stands relative to another in a priority order.
/// `Higher` means it is served first.
#[derive(Clone, Copy, Debug, PartialEq, Eq, Structural)]
pub enum Rank {
    Lower,
    Same,
    Higher,
}

/// The score of a peer that was sent `sent` requests, `success` of which
/// succeeded: the truncated hit rate plus the sample size.
pub open spec fn score_of(sent: nat, success: nat) -> nat {
    if sent == 0 {
        0
    } else {
        (success * 1000) / (sent * 1000) + sent
    }
}

/// How `(score_a, success_a)` ranks against `(score_b, success_b)`:
/// by score first, then by the number of successes.
pub open spec fn rank_of_pair(a: (int, int), b: (int, int)) -> Rank {
    if a.0 < b.0 {
        Rank::Lower
    } else if a.0 > b.0 {
        Rank::Higher
    } else if a.1 < b.1 {
        Rank::Lower
    } else if a.1 > b.1 {
        Rank::Higher
    } else {
        Rank::Same
    }
}

/// The scale factor cancels: the hit-rate term is the truncated quotient.
pub proof fn lemma_score_simplifies(sent: nat, success: nat)
    requires
        sent > 0,
    ensures
        score_of(sent, success) == success / sent + sent,
{
    vstd::arithmetic::div_mod::lemma_div_multiples_vanish_quotient(1000, success as int, sent as int);
    assert(success * 1000 == 1000 * success) by (nonlinear_arith);
    assert(sent * 1000 == 1000 * sent) by (nonlinear_arith);
}

/// How a peer has done so far: the requests sent to it, and those it
/// answered.
#[derive(Clone, Copy, Debug, PartialEq, Eq, Structural)]
pub struct ReliabilityReport {
    pub total_requests_sent: u32,
    pub total_requests_success: u32,
}

impl ReliabilityReport {
    /// No more successes than requests.
    pub open spec fn wf(&self) -> bool {
        self.total_requests_success <= self.total_requests_sent
    }

    /// The score of the peer.
    pub open spec fn score_spec(&self) -> nat {
        score_of(self.total_requests_sent as nat, self.total_requests_success as nat)
    }

    /// The report after one more successful request.
    pub open spec fn bumped_success(&self) -> ReliabilityReport {
        ReliabilityReport {
            total_requests_sent: (self.total_requests_sent + 1) as u32,
            total_requests_success: (self.total_requests_success + 1) as u32,
        }
    }

    /// The report after one more failed request.
    pub open spec fn bumped_failure(&self) -> ReliabilityReport {
        ReliabilityReport {
            total_requests_sent: (self.total_requests_sent + 1) as u32,
            total_requests_success: self.total_requests_success,
        }
    }

    /// How this report ranks against `other`.
    pub open spec fn rank_spec(&self, other: &ReliabilityReport) -> Rank {
        rank_of_pair(
            (self.score_spec() as int, self.total_requests_success as int),
            (other.score_spec() as int, other.total_requests_success as int),
        )
    }

    pub fn new(total_requests_sent: u32, total_requests_success: u32) -> (r: ReliabilityReport)
        ensures
            r.total_requests_sent == total_requests_sent,
            r.total_requests_success == total_requests_success,
    {
        ReliabilityReport { total_requests_sent, total_requests_success }
    }

    pub fn empty() -> (r: ReliabilityReport)
        ensures
            r.total_requests_sent == 0,
            r.total_requests_success == 0,
            r.wf(),
            r.score_spec() == 0,
    {
        ReliabilityReport { total_requests_sent: 0, total_requests_success: 0 }
    }

    /// Counts a request that was answered.
    pub fn bump_successful_requests(&mut self)
        requires
            old(self).total_requests_sent < u32::MAX,
            old(self).total_requests_success < u32::MAX,
        ensures
            *final(self) == old(self).bumped_success(),
            old(self).wf() ==> final(self).wf(),
    {
        self.total_requests_sent += 1;
        self.total_requests_success += 1;
    }

    /// Counts a request that was not answered.
    pub fn bump_failed_requests(&mut self)
        requires
            old(self).total_requests_sent < u32::MAX,
        ensures
            *final(self) == old(self).bumped_failure(),
            old(self).wf() ==> final(self).wf(),
    {
        self.total_requests_sent += 1;
    }

    /// The score the peer is ranked by: its truncated hit rate plus the
    /// number of requests sent to it; zero where none was sent.
    pub fn score(&self) -> (r: u32)
        requires
            self.score_spec() <= u32::MAX,
        ensures
            r == self.score_spec(),
    {
        if self.total_requests_sent == 0 {
            0
        } else {
            let sent: u64 = self.total_requests_sent as u64;
            let success: u64 = self.total_requests_success as u64;
            let rate: u64 = (success * 1000) / (sent * 1000);
            (rate + sent) as u32
        }
    }

    /// Ranks two reports: the higher score first, then the more successes.
    pub fn compare(&self, other: &ReliabilityReport) -> (r: Rank)
        requires
            self.score_spec() <= u32::MAX,
            other.score_spec() <= u32::MAX,
        ensures
            r == self.rank_spec(other),
    {
        let mine: u32 = self.score();
        let theirs: u32 = other.score();
        if mine < theirs {
            Rank::Lower
        } else if mine > theirs {
            Rank::Higher
        } else if self.total_requests_success < other.total_requests_success {
            Rank::Lower
        } else if self.total_requests_success > other.total_requests_success {
            Rank::Higher
        } else {
            Rank::Same
        }
    }
}

/// A well-formed report that can still count one more request has a
/// score that fits the machine word.
pub proof fn lemma_score_fits(r: ReliabilityReport)
    requires
        r.wf(),
        r.total_requests_sent < u32::MAX,
    ensures
        r.score_spec() <= u32::MAX,
        r.score_spec() == r.total_requests_sent + (if r.total_requests_sent > 0
            && r.total_requests_success == r.total_requests_sent {
            1nat
        } else {
            0nat
        }),
{
    if r.total_requests_sent > 0 {
        let sent = r.total_requests_sent as nat;
        let success = r.total_requests_success as nat;
        lemma_score_simplifies(sent, success);
        if success == sent {
            assert(success / sent == 1) by (nonlinear_arith)
                requires
                    success == sent,
                    sent > 0,
            ;
        } else {
            assert(success / sent == 0) by (nonlinear_arith)
                requires
                    success < sent,
            ;
        }
    }
}

/// A success never lowers the score of a well-formed report, and in fact
/// raises it: each further success scores strictly higher.
pub proof fn lemma_success_raises_score(r: ReliabilityReport)
    requires
        r.wf(),
        r.total_requests_sent < u32::MAX - 1,
    ensures
        r.bumped_success().wf(),
        r.bumped_success().score_spec() > r.score_spec(),
{
    lemma_score_fits(r);
    lemma_score_fits(r.bumped_success());
}

/// A failure never lowers the score of a well-formed report: the sample
/// size grows by one while the hit-rate term can only fall from one to zero.
pub proof fn lemma_failure_keeps_score(r: ReliabilityReport)
    requires
        r.wf(),
        r.total_requests_sent < u32::MAX - 1,
    ensures
        r.bumped_failure().wf(),
        r.bumped_failure().score_spec() >= r.score_spec(),
        r.bumped_failure().score_spec() - r.score_spec() <= 1,
{
    lemma_score_fits(r);
    lemma_score_fits(r.bumped_failure());
}

} // verus!
