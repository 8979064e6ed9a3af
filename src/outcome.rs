use vstd::prelude::*;
use vstd::string::StrSliceExecFns;
use crate::snapshot::SnapshotGas;

verus! {

/// The result of one test: whether it passed and the gas it used.
#[derive(Clone, Copy, Debug, PartialEq, Eq, Structural)]
pub struct TestResult {
    pub success: bool,
    pub gas: SnapshotGas,
}

/// The results of one test contract.
#[derive(Clone, Debug)]
pub struct SuiteResult {
    /// Time taken, in nanoseconds.
    pub duration_nanos: u64,
    /// Each test's signature and result.
    pub test_results: Vec<(String, TestResult)>,
}

/// One test with where it comes from.
#[derive(Clone, Debug)]
pub struct Test {
    /// `<artifact file name>:<contract name>`.
    pub artifact_id: String,
    /// The signature of the test function.
    pub signature: String,
    pub result: TestResult,
}

/// The results of all test contracts of a run.
#[derive(Clone, Debug)]
pub struct TestOutcome {
    /// Whether failing tests are tolerated.
    pub allow_failure: bool,
    /// Each contract's artifact id and results.
    pub results: Vec<(String, SuiteResult)>,
}

/// The index of the first `:` in `s`, or its length.
pub open spec fn first_colon(s: Seq<char>) -> int
    decreases s.len(),
{
    if s.len() == 0 {
        0
    } else if first_colon(s.drop_last()) < s.len() - 1 {
        first_colon(s.drop_last())
    } else if s.last() == ':' {
        s.len() - 1
    } else {
        s.len() as int
    }
}

/// The index after the last `:` in `s`, or zero.
pub open spec fn after_last_colon(s: Seq<char>) -> int
    decreases s.len(),
{
    if s.len() == 0 {
        0
    } else if s.last() == ':' {
        s.len() as int
    } else {
        after_last_colon(s.drop_last())
    }
}

fn chars_of(s: &str) -> (r: Vec<char>)
    ensures
        r@ == s@,
{
    let n = s.unicode_len();
    let mut r: Vec<char> = Vec::new();
    let mut i: usize = 0;
    while i < n
        invariant
            n == s@.len(),
            i <= n,
            r@ == s@.subrange(0, i as int),
        decreases n - i,
    {
        r.push(s.get_char(i));
        i = i + 1;
    }
    assert(r@ =~= s@);
    r
}

impl Test {
    /// The gas this test used: its gas, or the median over fuzz runs.
    pub fn gas_used(&self) -> (r: u64)
        ensures
            r == self.result.gas.gas_spec(),
    {
        self.result.gas.gas()
    }

    /// The contract name of the artifact id: what follows its last `:`.
    pub fn contract_name(&self) -> (r: &str)
        ensures
            r@ == self.artifact_id@.subrange(
                after_last_colon(self.artifact_id@),
                self.artifact_id@.len() as int,
            ),
    {
        let v = chars_of(self.artifact_id.as_str());
        let mut i = v.len();
        proof {
            assert(v@.subrange(0, i as int) =~= v@);
        }
        while i > 0 && v[i - 1] != ':'
            invariant
                i <= v@.len(),
                after_last_colon(v@) == after_last_colon(v@.subrange(0, i as int)),
            decreases i,
        {
            assert(v@.subrange(0, i as int).drop_last() == v@.subrange(0, i - 1));
            i = i - 1;
        }
        self.artifact_id.as_str().substring_char(i, v.len())
    }

    /// The file name of the artifact id: what precedes its first `:`.
    pub fn file_name(&self) -> (r: &str)
        ensures
            r@ == self.artifact_id@.subrange(0, first_colon(self.artifact_id@)),
    {
        let v = chars_of(self.artifact_id.as_str());
        let mut i: usize = 0;
        while i < v.len() && v[i] != ':'
            invariant
                i <= v@.len(),
                forall|k: int| 0 <= k < i ==> v@[k] != ':',
            decreases v.len() - i,
        {
            i = i + 1;
        }
        proof {
            lemma_first_colon_is(v@, i as int);
        }
        self.artifact_id.as_str().substring_char(0, i)
    }
}

proof fn lemma_first_colon_is(s: Seq<char>, i: int)
    requires
        0 <= i <= s.len(),
        forall|k: int| 0 <= k < i ==> s[k] != ':',
        i < s.len() ==> s[i] == ':',
    ensures
        first_colon(s) == i,
    decreases s.len(),
{
    if s.len() > 0 {
        if i < s.len() {
            if i < s.len() - 1 {
                lemma_first_colon_is(s.drop_last(), i);
            } else {
                lemma_first_colon_is(s.drop_last(), i);
            }
        } else {
            lemma_first_colon_is(s.drop_last(), i - 1);
        }
    }
}

/// Whether `a` comes before `b` in lexicographic order of their characters.
pub open spec fn key_lt(a: Seq<char>, b: Seq<char>) -> bool
    decreases a.len(),
{
    if a.len() == 0 {
        b.len() > 0
    } else if b.len() == 0 {
        false
    } else if a[0] != b[0] {
        a[0] < b[0]
    } else {
        key_lt(a.drop_first(), b.drop_first())
    }
}

proof fn lemma_key_irreflexive(a: Seq<char>)
    ensures
        !key_lt(a, a),
    decreases a.len(),
{
    if a.len() > 0 {
        lemma_key_irreflexive(a.drop_first());
    }
}

proof fn lemma_key_total(a: Seq<char>, b: Seq<char>)
    ensures
        a == b || key_lt(a, b) || key_lt(b, a),
        !(key_lt(a, b) && key_lt(b, a)),
    decreases a.len(),
{
    if a.len() > 0 && b.len() > 0 && a[0] == b[0] {
        lemma_key_total(a.drop_first(), b.drop_first());
        if a.drop_first() == b.drop_first() {
            assert(a =~= seq![a[0]] + a.drop_first());
            assert(b =~= seq![b[0]] + b.drop_first());
        }
    } else if a.len() == 0 && b.len() == 0 {
        assert(a =~= b);
    }
}

proof fn lemma_key_transitive(a: Seq<char>, b: Seq<char>, c: Seq<char>)
    requires
        key_lt(a, b),
        key_lt(b, c),
    ensures
        key_lt(a, c),
    decreases a.len(),
{
    if a.len() > 0 && b.len() > 0 && c.len() > 0 && a[0] == b[0] && b[0] == c[0] {
        lemma_key_transitive(a.drop_first(), b.drop_first(), c.drop_first());
    }
}

/// Whether the keys of `s` strictly ascend.
pub open spec fn sorted_keys(s: Seq<(String, SuiteResult)>) -> bool {
    forall|i: int, j: int| 0 <= i < j < s.len() ==> key_lt(#[trigger] s[i].0@, #[trigger] s[j].0@)
}

/// The suite that `s` holds for the artifact id `k`: that of its last entry.
pub open spec fn suite_for(s: Seq<(String, SuiteResult)>, k: Seq<char>) -> Option<SuiteResult>
    decreases s.len(),
{
    if s.len() == 0 {
        None
    } else if s.last().0@ == k {
        Some(s.last().1)
    } else {
        suite_for(s.drop_last(), k)
    }
}

proof fn lemma_lookup_sorted(s: Seq<(String, SuiteResult)>, k: Seq<char>)
    requires
        sorted_keys(s),
    ensures
        forall|i: int| 0 <= i < s.len() && #[trigger] s[i].0@ == k ==> suite_for(s, k) == Some(s[i].1),
        (forall|i: int| 0 <= i < s.len() ==> #[trigger] s[i].0@ != k) ==> suite_for(s, k) is None,
    decreases s.len(),
{
    if s.len() > 0 {
        let p = s.drop_last();
        assert(sorted_keys(p)) by {
            assert forall|i: int, j: int| 0 <= i < j < p.len() implies key_lt(#[trigger] p[i].0@, #[trigger] p[j].0@) by {
                assert(p[i] == s[i] && p[j] == s[j]);
            }
        }
        lemma_lookup_sorted(p, k);
        assert forall|i: int| 0 <= i < s.len() && #[trigger] s[i].0@ == k implies suite_for(s, k) == Some(s[i].1) by {
            if i < s.len() - 1 {
                if s.last().0@ == k {
                    assert(key_lt(s[i].0@, s[s.len() - 1].0@));
                    lemma_key_irreflexive(k);
                }
                assert(p[i] == s[i]);
            }
        }
        if forall|i: int| 0 <= i < s.len() ==> #[trigger] s[i].0@ != k {
            assert forall|i: int| 0 <= i < p.len() implies #[trigger] p[i].0@ != k by {
                assert(p[i] == s[i]);
            }
        }
    }
}

proof fn lemma_set_keeps_map(s: Seq<(String, SuiteResult)>, pos: int, e: (String, SuiteResult))
    requires
        sorted_keys(s),
        0 <= pos < s.len(),
        s[pos].0@ == e.0@,
    ensures
        sorted_keys(s.update(pos, e)),
        forall|k: Seq<char>| #[trigger] suite_for(s.update(pos, e), k) == (if k == e.0@ {
            Some(e.1)
        } else {
            suite_for(s, k)
        }),
{
    let t = s.update(pos, e);
    assert(sorted_keys(t)) by {
        assert forall|i: int, j: int| 0 <= i < j < t.len() implies key_lt(#[trigger] t[i].0@, #[trigger] t[j].0@) by {
            assert(key_lt(s[i].0@, s[j].0@));
        }
    }
    assert forall|k: Seq<char>| #[trigger] suite_for(t, k) == (if k == e.0@ { Some(e.1) } else { suite_for(s, k) }) by {
        lemma_lookup_sorted(s, k);
        lemma_lookup_sorted(t, k);
        if k == e.0@ {
            assert(t[pos].0@ == k);
        } else {
            if exists|i: int| 0 <= i < s.len() && #[trigger] s[i].0@ == k {
                let i = choose|i: int| 0 <= i < s.len() && #[trigger] s[i].0@ == k;
                assert(t[i] == s[i]);
            } else {
                assert forall|i: int| 0 <= i < t.len() implies #[trigger] t[i].0@ != k by {
                    if i != pos {
                        assert(t[i] == s[i]);
                    }
                }
            }
        }
    }
}

proof fn lemma_insert_keeps_map(s: Seq<(String, SuiteResult)>, pos: int, e: (String, SuiteResult))
    requires
        sorted_keys(s),
        0 <= pos <= s.len(),
        forall|a: int| 0 <= a < pos ==> key_lt(#[trigger] s[a].0@, e.0@),
        pos < s.len() ==> key_lt(e.0@, s[pos].0@),
    ensures
        sorted_keys(s.insert(pos, e)),
        forall|k: Seq<char>| #[trigger] suite_for(s.insert(pos, e), k) == (if k == e.0@ {
            Some(e.1)
        } else {
            suite_for(s, k)
        }),
{
    let t = s.insert(pos, e);
    s.insert_ensures(pos, e);
    assert forall|a: int| pos <= a < s.len() implies key_lt(e.0@, #[trigger] s[a].0@) by {
        if a > pos {
            lemma_key_transitive(e.0@, s[pos].0@, s[a].0@);
        }
    }
    assert(sorted_keys(t)) by {
        assert forall|i: int, j: int| 0 <= i < j < t.len() implies key_lt(#[trigger] t[i].0@, #[trigger] t[j].0@) by {
            if j < pos {
                assert(key_lt(s[i].0@, s[j].0@));
            } else if j == pos {
            } else if i < pos {
                lemma_key_transitive(s[i].0@, e.0@, s[j - 1].0@);
            } else if i == pos {
            } else {
                assert(key_lt(s[i - 1].0@, s[j - 1].0@));
            }
        }
    }
    assert forall|k: Seq<char>| #[trigger] suite_for(t, k) == (if k == e.0@ { Some(e.1) } else { suite_for(s, k) }) by {
        lemma_lookup_sorted(s, k);
        lemma_lookup_sorted(t, k);
        if k == e.0@ {
            assert(t[pos].0@ == k);
        } else {
            if exists|i: int| 0 <= i < s.len() && #[trigger] s[i].0@ == k {
                let i = choose|i: int| 0 <= i < s.len() && #[trigger] s[i].0@ == k;
                if i < pos {
                    assert(t[i] == s[i]);
                } else {
                    assert(t[i + 1] == s[i]);
                }
            } else {
                assert forall|i: int| 0 <= i < t.len() implies #[trigger] t[i].0@ != k by {
                    if i < pos {
                        assert(t[i] == s[i]);
                    } else if i > pos {
                        assert(t[i] == s[i - 1]);
                    }
                }
            }
        }
    }
}

fn key_less(a: &String, b: &String) -> (r: bool)
    ensures
        r == key_lt(a@, b@),
{
    let x = chars_of(a.as_str());
    let y = chars_of(b.as_str());
    let mut i: usize = 0;
    proof {
        assert(x@.subrange(0, x@.len() as int) =~= x@);
        assert(y@.subrange(0, y@.len() as int) =~= y@);
    }
    while i < x.len() && i < y.len() && x[i] == y[i]
        invariant
            i <= x@.len(),
            i <= y@.len(),
            key_lt(a@, b@) == key_lt(x@.subrange(i as int, x@.len() as int), y@.subrange(i as int, y@.len() as int)),
            x@ == a@,
            y@ == b@,
        decreases x@.len() - i,
    {
        proof {
            let xs = x@.subrange(i as int, x@.len() as int);
            let ys = y@.subrange(i as int, y@.len() as int);
            assert(xs.drop_first() =~= x@.subrange(i + 1, x@.len() as int));
            assert(ys.drop_first() =~= y@.subrange(i + 1, y@.len() as int));
        }
        i = i + 1;
    }
    proof {
        let xs = x@.subrange(i as int, x@.len() as int);
        let ys = y@.subrange(i as int, y@.len() as int);
        if i < x@.len() && i < y@.len() {
            assert(xs[0] == x@[i as int] && ys[0] == y@[i as int]);
        }
    }
    if i == x.len() {
        i < y.len()
    } else if i == y.len() {
        false
    } else {
        x[i] < y[i]
    }
}

/// The tests of the suites `results`, in order, each with its contract's artifact id.
pub open spec fn all_tests(results: Seq<(String, SuiteResult)>) -> Seq<Test>
    decreases results.len(),
{
    if results.len() == 0 {
        Seq::empty()
    } else {
        all_tests(results.drop_last()) + results.last().1.test_results@.map_values(
            |t: (String, TestResult)| Test { artifact_id: results.last().0, signature: t.0, result: t.1 },
        )
    }
}

/// The tests of `tests` that `keep` accepts, in order.
pub open spec fn tests_where(tests: Seq<Test>, keep: spec_fn(Test) -> bool) -> Seq<Test>
    decreases tests.len(),
{
    if tests.len() == 0 {
        Seq::empty()
    } else if keep(tests.last()) {
        tests_where(tests.drop_last(), keep).push(tests.last())
    } else {
        tests_where(tests.drop_last(), keep)
    }
}

/// The total time of the suites `results`, in nanoseconds.
pub open spec fn total_nanos(results: Seq<(String, SuiteResult)>) -> nat
    decreases results.len(),
{
    if results.len() == 0 {
        0
    } else {
        total_nanos(results.drop_last()) + results.last().1.duration_nanos as nat
    }
}

fn copy_test(t: &Test) -> (r: Test)
    ensures
        r == *t,
{
    Test { artifact_id: t.artifact_id.clone(), signature: t.signature.clone(), result: t.result }
}

impl TestOutcome {
    /// An outcome over `results`, held as a map: one entry per artifact id, the last one
    /// given, in ascending order of the ids.
    pub fn new(results: Vec<(String, SuiteResult)>, allow_failure: bool) -> (r: TestOutcome)
        ensures
            sorted_keys(r.results@),
            forall|k: Seq<char>| #[trigger] suite_for(r.results@, k) == suite_for(results@, k),
            r.allow_failure == allow_failure,
    {
        let ghost given = results@;
        let mut rest = results;
        let mut out: Vec<(String, SuiteResult)> = Vec::new();
        let ghost mut done: Seq<(String, SuiteResult)> = Seq::empty();
        proof {
            assert(given =~= done + rest@);
        }
        while rest.len() > 0
            invariant
                given == done + rest@,
                sorted_keys(out@),
                forall|k: Seq<char>| #[trigger] suite_for(out@, k) == suite_for(done, k),
            decreases rest.len(),
        {
            let ghost before_rest = rest@;
            let e = rest.remove(0);
            proof {
                assert(e == before_rest[0]);
                assert(given == done.push(e) + rest@) by {
                    assert(before_rest =~= seq![e] + rest@);
                    assert(done + before_rest =~= done.push(e) + rest@);
                }
            }
            let ghost old_out = out@;
            let mut pos: usize = 0;
            while pos < out.len() && key_less(&out[pos].0, &e.0)
                invariant
                    pos <= out@.len(),
                    forall|a: int| 0 <= a < pos ==> key_lt(#[trigger] out@[a].0@, e.0@),
                decreases out@.len() - pos,
            {
                pos = pos + 1;
            }
            if pos < out.len() && out[pos].0 == e.0 {
                proof {
                    lemma_set_keeps_map(old_out, pos as int, e);
                }
                out.set(pos, e);
            } else {
                proof {
                    if pos < old_out.len() {
                        lemma_key_total(old_out[pos as int].0@, e.0@);
                    }
                    lemma_insert_keeps_map(old_out, pos as int, e);
                }
                out.insert(pos, e);
            }
            proof {
                assert(done.push(e).drop_last() =~= done);
                done = done.push(e);
            }
        }
        proof {
            assert(rest@ =~= Seq::<(String, SuiteResult)>::empty());
            assert(done =~= given);
        }
        TestOutcome { allow_failure, results: out }
    }

    /// Every test with its contract's artifact id: suite by suite in the order of
    /// `results` (ascending artifact ids for an outcome built with `new`), each suite's
    /// tests in their order.
    pub fn tests(&self) -> (r: Vec<Test>)
        ensures
            r@ == all_tests(self.results@),
    {
        let mut r: Vec<Test> = Vec::new();
        let mut i: usize = 0;
        while i < self.results.len()
            invariant
                i <= self.results@.len(),
                r@ == all_tests(self.results@.subrange(0, i as int)),
            decreases self.results@.len() - i,
        {
            let ghost before = r@;
            let file = &self.results[i].0;
            let suite = &self.results[i].1;
            let mut j: usize = 0;
            while j < suite.test_results.len()
                invariant
                    j <= suite.test_results@.len(),
                    r@ == before + suite.test_results@.subrange(0, j as int).map_values(
                        |t: (String, TestResult)| Test { artifact_id: *file, signature: t.0, result: t.1 },
                    ),
                decreases suite.test_results@.len() - j,
            {
                let t = Test {
                    artifact_id: file.clone(),
                    signature: suite.test_results[j].0.clone(),
                    result: suite.test_results[j].1,
                };
                r.push(t);
                j = j + 1;
                assert(r@ =~= before + suite.test_results@.subrange(0, j as int).map_values(
                    |t: (String, TestResult)| Test { artifact_id: *file, signature: t.0, result: t.1 },
                ));
            }
            proof {
                let s = self.results@.subrange(0, i + 1);
                assert(s.drop_last() =~= self.results@.subrange(0, i as int));
                assert(suite.test_results@.subrange(0, j as int) =~= suite.test_results@);
            }
            i = i + 1;
        }
        proof {
            assert(self.results@.subrange(0, i as int) =~= self.results@);
        }
        r
    }

    /// Every test with its contract's artifact id: suite by suite in the order of
    /// `results` (ascending artifact ids for an outcome built with `new`), each suite's
    /// tests in their order.
    pub fn into_tests(self) -> (r: Vec<Test>)
        ensures
            r@ == all_tests(self.results@),
    {
        self.tests()
    }

    /// The tests that passed, in order.
    pub fn successes(&self) -> (r: Vec<Test>)
        ensures
            r@ == tests_where(all_tests(self.results@), |t: Test| t.result.success),
    {
        let all = self.tests();
        select_tests(&all, true)
    }

    /// The tests that failed, in order.
    pub fn failures(&self) -> (r: Vec<Test>)
        ensures
            r@ == tests_where(all_tests(self.results@), |t: Test| !t.result.success),
    {
        let all = self.tests();
        select_tests(&all, false)
    }

    /// Whether the run must fail: some test failed and failures are not tolerated.
    pub fn has_disallowed_failures(&self) -> (r: bool)
        ensures
            r == (!self.allow_failure && tests_where(
                all_tests(self.results@),
                |t: Test| !t.result.success,
            ).len() > 0),
    {
        if self.allow_failure {
            return false;
        }
        self.failures().len() > 0
    }

    /// The total time of all suites, in nanoseconds.
    pub fn duration(&self) -> (r: u128)
        ensures
            r == total_nanos(self.results@),
    {
        let mut total: u128 = 0;
        let mut i: usize = 0;
        while i < self.results.len()
            invariant
                i <= self.results@.len(),
                total == total_nanos(self.results@.subrange(0, i as int)),
                total <= i * (u64::MAX as nat),
            decreases self.results@.len() - i,
        {
            proof {
                assert(self.results@.subrange(0, i + 1).drop_last() =~= self.results@.subrange(
                    0,
                    i as int,
                ));
                assert((i + 1) * (u64::MAX as nat) == i * (u64::MAX as nat) + u64::MAX) by (nonlinear_arith);
                assert(i * (u64::MAX as nat) <= usize::MAX as nat * (u64::MAX as nat)) by (nonlinear_arith)
                    requires i <= usize::MAX;
            }
            total = total + self.results[i].1.duration_nanos as u128;
            i = i + 1;
        }
        proof {
            assert(self.results@.subrange(0, i as int) =~= self.results@);
        }
        total
    }
}

fn select_tests(all: &Vec<Test>, success: bool) -> (r: Vec<Test>)
    ensures
        success ==> r@ == tests_where(all@, |t: Test| t.result.success),
        !success ==> r@ == tests_where(all@, |t: Test| !t.result.success),
{
    let ghost keep = if success {
        |t: Test| t.result.success
    } else {
        |t: Test| !t.result.success
    };
    let mut r: Vec<Test> = Vec::new();
    let mut i: usize = 0;
    while i < all.len()
        invariant
            i <= all@.len(),
            r@ == tests_where(all@.subrange(0, i as int), keep),
            forall|t: Test| #[trigger] keep(t) == (t.result.success == success),
        decreases all@.len() - i,
    {
        proof {
            assert(all@.subrange(0, i + 1).drop_last() =~= all@.subrange(0, i as int));
        }
        if all[i].result.success == success {
            r.push(copy_test(&all[i]));
        }
        i = i + 1;
    }
    proof {
        assert(all@.subrange(0, i as int) =~= all@);
    }
    r
}

/// Which tests go into a gas snapshot, and in what order.
#[derive(Clone, Copy, Debug, PartialEq, Eq, Structural)]
pub struct SnapshotConfig {
    /// Sort by ascending gas.
    pub asc: bool,
    /// Sort by descending gas.
    pub desc: bool,
    /// Leave out tests that used less gas.
    pub min: Option<u64>,
    /// Leave out tests that used more gas.
    pub max: Option<u64>,
}

/// Whether `a` comes no later than `b` in the order asked for.
pub open spec fn in_order(asc: bool, a: u64, b: u64) -> bool {
    if asc { a <= b } else { a >= b }
}

fn comes_before(asc: bool, a: u64, b: u64) -> (r: bool)
    ensures
        r == in_order(asc, a, b),
{
    if asc {
        a <= b
    } else {
        a >= b
    }
}

impl SnapshotConfig {
    /// Whether `gas` lies within the configured bounds.
    pub open spec fn in_range(&self, gas: u64) -> bool {
        &&& (self.min matches Some(m) ==> gas >= m)
        &&& (self.max matches Some(m) ==> gas <= m)
    }

    /// Whether `gas_used` lies within the configured bounds.
    pub fn is_in_gas_range(&self, gas_used: u64) -> (r: bool)
        ensures
            r == self.in_range(gas_used),
    {
        if let Some(min) = self.min {
            if gas_used < min {
                return false;
            }
        }
        if let Some(max) = self.max {
            if gas_used > max {
                return false;
            }
        }
        true
    }

    /// The tests of `outcome` within the gas bounds, sorted by gas where asked (ascending
    /// first); unsorted, they keep run order.
    pub fn apply(&self, outcome: TestOutcome) -> (r: Vec<Test>)
        ensures
            r@.to_multiset() == tests_where(
                all_tests(outcome.results@),
                |t: Test| self.in_range(t.result.gas.gas_spec()),
            ).to_multiset(),
            !self.asc && !self.desc ==> r@ == tests_where(
                all_tests(outcome.results@),
                |t: Test| self.in_range(t.result.gas.gas_spec()),
            ),
            self.asc || self.desc ==> forall|i: int, j: int|
                0 <= i < j < r@.len() ==> in_order(
                    self.asc,
                    r@[i].result.gas.gas_spec(),
                    r@[j].result.gas.gas_spec(),
                ),
    {
        let all = outcome.into_tests();
        let ghost keep = |t: Test| self.in_range(t.result.gas.gas_spec());
        let mut kept: Vec<Test> = Vec::new();
        let mut i: usize = 0;
        while i < all.len()
            invariant
                i <= all@.len(),
                kept@ == tests_where(all@.subrange(0, i as int), keep),
                forall|t: Test| #[trigger] keep(t) == self.in_range(t.result.gas.gas_spec()),
            decreases all@.len() - i,
        {
            proof {
                assert(all@.subrange(0, i + 1).drop_last() =~= all@.subrange(0, i as int));
            }
            if self.is_in_gas_range(all[i].gas_used()) {
                kept.push(copy_test(&all[i]));
            }
            i = i + 1;
        }
        proof {
            assert(all@.subrange(0, i as int) =~= all@);
        }
        if !self.asc && !self.desc {
            return kept;
        }
        let asc = self.asc;
        let mut sorted: Vec<Test> = Vec::new();
        proof {
            assert(kept@.subrange(0, 0) =~= sorted@);
        }
        let mut k: usize = 0;
        while k < kept.len()
            invariant
                k <= kept@.len(),
                sorted@.to_multiset() == kept@.subrange(0, k as int).to_multiset(),
                forall|a: int, b: int|
                    0 <= a < b < sorted@.len() ==> in_order(
                        asc,
                        sorted@[a].result.gas.gas_spec(),
                        sorted@[b].result.gas.gas_spec(),
                    ),
            decreases kept@.len() - k,
        {
            let t = copy_test(&kept[k]);
            let g = t.gas_used();
            let mut pos: usize = 0;
            while pos < sorted.len() && comes_before(asc, sorted[pos].gas_used(), g)
                invariant
                    pos <= sorted@.len(),
                    forall|a: int| 0 <= a < pos ==> in_order(asc, sorted@[a].result.gas.gas_spec(), g),
                decreases sorted@.len() - pos,
            {
                pos = pos + 1;
            }
            proof {
                // everything from `pos` on comes after `g`
                assert forall|a: int| pos <= a < sorted@.len() implies in_order(
                    asc,
                    g,
                    sorted@[a].result.gas.gas_spec(),
                ) by {
                    if pos < sorted@.len() {
                        assert(!in_order(asc, sorted@[pos as int].result.gas.gas_spec(), g));
                        if a > pos {
                            assert(in_order(
                                asc,
                                sorted@[pos as int].result.gas.gas_spec(),
                                sorted@[a].result.gas.gas_spec(),
                            ));
                        }
                    }
                }
                sorted@.insert_ensures(pos as int, t);
                assert(kept@.subrange(0, k + 1) =~= kept@.subrange(0, k as int).push(kept@[k as int]));
                kept@.subrange(0, k as int).to_multiset_ensures();
            }
            let ghost before = sorted@;
            sorted.insert(pos, t);
            proof {
                assert(sorted@.remove(pos as int) =~= before);
                sorted@.to_multiset_ensures();
                assert(sorted@.to_multiset().count(t) > 0) by {
                    assert(sorted@[pos as int] == t);
                    assert(sorted@.contains(t));
                }
                assert(sorted@.to_multiset() =~= before.to_multiset().insert(t));
            }
            k = k + 1;
        }
        proof {
            assert(kept@.subrange(0, k as int) =~= kept@);
        }
        sorted
    }
}

} // verus!
