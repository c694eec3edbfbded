//! Per-request outcomes and the run summary.

use vstd::prelude::*;

use crate::assertion::types::AssertionResult;
use crate::http::response::Response;

verus! {

/// The outcome of one request of a run.
pub struct TestResult {
    /// One-based position in the document.
    pub request_number: usize,
    /// Display name, if any.
    pub name: Option<String>,
    /// The dispatched method's name.
    pub method: String,
    /// The resolved URL.
    pub url: String,
    /// The response status, when a response arrived.
    pub status: Option<u16>,
    /// Elapsed time in milliseconds.
    pub duration_ms: u64,
    /// Whether the request counts as passed.
    pub success: bool,
    /// The error message, when the request could not be exchanged.
    pub error: Option<String>,
    /// The full response, when one arrived.
    pub response: Option<Response>,
    /// Whether the request was skipped.
    pub skipped: bool,
    /// The outcomes of the configured assertions.
    pub assertions: Vec<AssertionResult>,
}

impl TestResult {
    /// The result of a dispatched request: passed when the status is 2xx,
    /// with no assertions attached yet.
    pub fn success(
        request_number: usize,
        name: Option<String>,
        method: String,
        url: String,
        response: Response,
    ) -> (r: TestResult)
        ensures
            r.request_number == request_number,
            r.status matches Some(c) && c == response.status@,
            r.duration_ms == response.duration_ms,
            r.success == (200 <= response.status@ <= 299),
            r.error is None,
            r.response matches Some(resp) && resp.status@ == response.status@,
            !r.skipped,
            r.assertions@.len() == 0,
            r.method@ == method@,
            r.url@ == url@,
    {
        let status = response.status.code();
        let duration_ms = response.duration_ms;
        let success = response.is_success();
        TestResult {
            request_number,
            name,
            method,
            url,
            status: Some(status),
            duration_ms,
            success,
            error: None,
            response: Some(response),
            skipped: false,
            assertions: Vec::new(),
        }
    }

    /// The result of a request that could not be exchanged.
    pub fn error(
        request_number: usize,
        name: Option<String>,
        method: String,
        url: String,
        error: String,
        duration_ms: u64,
    ) -> (r: TestResult)
        ensures
            r.request_number == request_number,
            r.status is None,
            r.duration_ms == duration_ms,
            !r.success,
            r.error matches Some(e) && e@ == error@,
            r.response is None,
            !r.skipped,
            r.assertions@.len() == 0,
    {
        TestResult {
            request_number,
            name,
            method,
            url,
            status: None,
            duration_ms,
            success: false,
            error: Some(error),
            response: None,
            skipped: false,
            assertions: Vec::new(),
        }
    }

    /// The result of a skipped request: counted as passed, exchanged
    /// nothing.
    pub fn skipped(
        request_number: usize,
        name: Option<String>,
        method: String,
        url: String,
    ) -> (r: TestResult)
        ensures
            r.request_number == request_number,
            r.status is None,
            r.duration_ms == 0,
            r.success,
            r.error is None,
            r.response is None,
            r.skipped,
            r.assertions@.len() == 0,
    {
        TestResult {
            request_number,
            name,
            method,
            url,
            status: None,
            duration_ms: 0,
            success: true,
            error: None,
            response: None,
            skipped: true,
            assertions: Vec::new(),
        }
    }

    /// Attach assertion outcomes; a failing one fails the request.
    pub fn apply_assertions(&mut self, assertions: Vec<AssertionResult>)
        ensures
            final(self).assertions@ == assertions@,
            final(self).success == (old(self).success && (forall|k: int|
                0 <= k < assertions@.len() ==> (#[trigger] assertions@[k]).passed)),
            final(self).request_number == old(self).request_number,
            final(self).skipped == old(self).skipped,
            final(self).status == old(self).status,
            final(self).duration_ms == old(self).duration_ms,
    {
        let n = assertions.len();
        let mut all_passed = true;
        let mut i: usize = 0;
        while i < n
            invariant
                0 <= i <= n == assertions@.len(),
                all_passed == (forall|k: int|
                    0 <= k < i ==> (#[trigger] assertions@[k]).passed),
            decreases n - i,
        {
            if !assertions[i].passed {
                all_passed = false;
            }
            i = i + 1;
        }
        self.success = self.success && all_passed;
        self.assertions = assertions;
    }
}

/// How many of the results passed without being skipped.
pub open spec fn passed_count(rs: Seq<TestResult>, i: int) -> int
    decreases rs.len() - i,
{
    if i < 0 || i >= rs.len() {
        0
    } else {
        (if rs[i].success && !rs[i].skipped {
            1int
        } else {
            0int
        }) + passed_count(rs, i + 1)
    }
}

/// How many of the results were skipped.
pub open spec fn skipped_count(rs: Seq<TestResult>, i: int) -> int
    decreases rs.len() - i,
{
    if i < 0 || i >= rs.len() {
        0
    } else {
        (if rs[i].skipped {
            1int
        } else {
            0int
        }) + skipped_count(rs, i + 1)
    }
}

/// The total elapsed time.
pub open spec fn duration_sum(rs: Seq<TestResult>, i: int) -> int
    decreases rs.len() - i,
{
    if i < 0 || i >= rs.len() {
        0
    } else {
        rs[i].duration_ms + duration_sum(rs, i + 1)
    }
}

/// How many assertions the results carry in all.
pub open spec fn assertions_total(rs: Seq<TestResult>, i: int) -> int
    decreases rs.len() - i,
{
    if i < 0 || i >= rs.len() {
        0
    } else {
        rs[i].assertions@.len() + assertions_total(rs, i + 1)
    }
}

/// How many of one result's assertions passed.
pub open spec fn passed_in(asserts: Seq<AssertionResult>, i: int) -> int
    decreases asserts.len() - i,
{
    if i < 0 || i >= asserts.len() {
        0
    } else {
        (if asserts[i].passed {
            1int
        } else {
            0int
        }) + passed_in(asserts, i + 1)
    }
}

/// How many assertions passed over all results.
pub open spec fn assertions_passed(rs: Seq<TestResult>, i: int) -> int
    decreases rs.len() - i,
{
    if i < 0 || i >= rs.len() {
        0
    } else {
        passed_in(rs[i].assertions@, 0) + assertions_passed(rs, i + 1)
    }
}

/// The aggregate outcome of a run.
pub struct TestSummary {
    pub total: usize,
    pub passed: usize,
    pub failed: usize,
    pub skipped: usize,
    /// Total elapsed time over all requests, in milliseconds.
    pub total_duration_ms: u128,
    pub total_assertions: usize,
    pub passed_assertions: usize,
    pub failed_assertions: usize,
}

proof fn lemma_passed_count_bound(rs: Seq<TestResult>, i: int)
    requires
        0 <= i <= rs.len(),
    ensures
        0 <= passed_count(rs, i) <= rs.len() - i,
        0 <= skipped_count(rs, i) <= rs.len() - i,
        passed_count(rs, i) + skipped_count(rs, i) <= rs.len() - i,
        0 <= duration_sum(rs, i),
        0 <= assertions_total(rs, i),
        0 <= assertions_passed(rs, i) <= assertions_total(rs, i),
    decreases rs.len() - i,
{
    if i < rs.len() {
        lemma_passed_count_bound(rs, i + 1);
        lemma_passed_in_bound(rs[i].assertions@, 0);
    }
}

proof fn lemma_passed_in_bound(asserts: Seq<AssertionResult>, i: int)
    requires
        0 <= i <= asserts.len(),
    ensures
        0 <= passed_in(asserts, i) <= asserts.len() - i,
    decreases asserts.len() - i,
{
    if i < asserts.len() {
        lemma_passed_in_bound(asserts, i + 1);
    }
}

proof fn lemma_totals_prefix(rs: Seq<TestResult>, j: int, i: int)
    requires
        0 <= j <= i <= rs.len(),
    ensures
        assertions_total(rs, i) <= assertions_total(rs, j),
        assertions_passed(rs, i) <= assertions_passed(rs, j) + (assertions_total(rs, j)
            - assertions_total(rs, i)),
    decreases i - j,
{
    if j < i {
        lemma_totals_prefix(rs, j + 1, i);
        lemma_passed_count_bound(rs, j);
        lemma_passed_count_bound(rs, j + 1);
        lemma_passed_in_bound(rs[j].assertions@, 0);
    }
}

proof fn lemma_duration_bound(rs: Seq<TestResult>, i: int)
    requires
        0 <= i <= rs.len(),
    ensures
        0 <= duration_sum(rs, i),
        duration_sum(rs, i) <= (rs.len() - i) * (u64::MAX as int),
    decreases rs.len() - i,
{
    if i < rs.len() {
        lemma_duration_bound(rs, i + 1);
        assert(duration_sum(rs, i) <= (rs.len() - i) * (u64::MAX as int)) by (nonlinear_arith)
            requires
                duration_sum(rs, i) == rs[i].duration_ms + duration_sum(rs, i + 1),
                duration_sum(rs, i + 1) <= (rs.len() - i - 1) * (u64::MAX as int),
                0 <= rs[i].duration_ms <= u64::MAX,
        ;
    }
}

impl TestSummary {
    /// The summary of a run: totals, pass/fail/skip counts, elapsed time,
    /// and assertion counts, all as the counting functions say.
    pub fn from_results(results: &Vec<TestResult>) -> (r: TestSummary)
        requires
            assertions_total(results@, 0) <= usize::MAX,
        ensures
            r.total == results@.len(),
            r.passed == passed_count(results@, 0),
            r.skipped == skipped_count(results@, 0),
            r.failed == results@.len() - passed_count(results@, 0) - skipped_count(results@, 0),
            r.total_duration_ms == duration_sum(results@, 0),
            r.total_assertions == assertions_total(results@, 0),
            r.passed_assertions == assertions_passed(results@, 0),
            r.failed_assertions == assertions_total(results@, 0) - assertions_passed(results@, 0),
    {
        let n = results.len();
        let mut passed: usize = 0;
        let mut skipped: usize = 0;
        let mut dur: u128 = 0;
        let mut ta: usize = 0;
        let mut pa: usize = 0;
        let mut i: usize = n;
        proof {
            lemma_passed_count_bound(results@, 0);
        }
        while i > 0
            invariant
                0 <= i <= n == results@.len(),
                assertions_total(results@, 0) <= usize::MAX,
                passed == passed_count(results@, i as int),
                skipped == skipped_count(results@, i as int),
                dur == duration_sum(results@, i as int),
                ta == assertions_total(results@, i as int),
                pa == assertions_passed(results@, i as int),
            decreases i,
        {
            i = i - 1;
            proof {
                lemma_passed_count_bound(results@, i as int);
                lemma_passed_count_bound(results@, i + 1);
                lemma_passed_in_bound(results@[i as int].assertions@, 0);
                lemma_totals_prefix(results@, 0, i as int);
                lemma_totals_prefix(results@, 0, i + 1);
                lemma_duration_bound(results@, i as int);
                lemma_duration_bound(results@, i + 1);
                assert((results@.len() - i) * (u64::MAX as int) < u128::MAX) by (nonlinear_arith)
                    requires
                        0 <= results@.len() - i <= u64::MAX as int,
                ;
            }
            let r = &results[i];
            if r.success && !r.skipped {
                passed = passed + 1;
            }
            if r.skipped {
                skipped = skipped + 1;
            }
            dur = dur + (r.duration_ms as u128);
            let m = r.assertions.len();
            ta = ta + m;
            let mut pin: usize = 0;
            let mut j: usize = m;
            while j > 0
                invariant
                    0 <= j <= m,
                    0 <= i < results@.len(),
                    m == results@[i as int].assertions@.len(),
                    pin == passed_in(results@[i as int].assertions@, j as int),
                decreases j,
            {
                j = j - 1;
                proof {
                    lemma_passed_in_bound(results@[i as int].assertions@, j as int);
                }
                if results[i].assertions[j].passed {
                    pin = pin + 1;
                }
            }
            pa = pa + pin;
        }
        proof {
            lemma_passed_count_bound(results@, 0);
        }
        TestSummary {
            total: n,
            passed,
            failed: n - passed - skipped,
            skipped,
            total_duration_ms: dur,
            total_assertions: ta,
            passed_assertions: pa,
            failed_assertions: ta - pa,
        }
    }
}

} // verus!
