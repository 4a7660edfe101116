//! Wildcard DNS detection and filtering.
//!
//! Detection probes a zone with random labels; the analysis of the probe
//! outcomes, the per-zone cache, the zone-membership walk and the filter are
//! exact functions here. The probing I/O itself is driven by the caller.

use vstd::prelude::*;
use crate::dns_records::DnsRecord;
use crate::ip::{split_sep, split_sep_exec};
use crate::record_values::value_text;
use crate::text::{chars_of_str, push_all, string_from_chars};

verus! {

/// One wildcard-bypass probe, recorded for diagnostics only.
#[derive(Debug, Clone)]
pub struct BypassAttempt {
    /// The technique probed, e.g. a label with disallowed characters.
    pub technique: String,
    /// The exact label that was tested.
    pub test_label: String,
    /// A bypass succeeds when the test label does not resolve.
    pub success: bool,
}

/// A bypass attempt from one probe outcome: the attempt succeeds exactly
/// when the test label did not resolve.
pub fn bypass_attempt(technique: String, test_label: String, resolved: bool) -> (r: BypassAttempt)
    ensures
        r.technique == technique,
        r.test_label == test_label,
        r.success == !resolved,
{
    BypassAttempt { technique, test_label, success: !resolved }
}

/// The wildcard analysis of one zone.
#[derive(Debug, Clone)]
pub struct WildcardAnalysis {
    /// The zone analyzed.
    pub base_domain: String,
    /// Whether the zone answers arbitrary labels.
    pub has_wildcard: bool,
    /// The IP texts that arbitrary labels resolve to.
    pub wildcard_ips: Vec<String>,
    /// Confidence in percent (90 for a confirmed wildcard, 70 for a weak
    /// one, 0 otherwise).
    pub confidence_pct: u8,
    /// Diagnostic bypass probes; they never affect filtering.
    pub bypass_attempts: Vec<BypassAttempt>,
}

/// The texts of the probe answers, in probe order.
pub open spec fn answered(probes: Seq<Option<String>>) -> Seq<Seq<char>>
    decreases probes.len(),
{
    if probes.len() == 0 {
        Seq::empty()
    } else {
        (match probes[0] {
            Some(s) => seq![s@],
            None => Seq::empty(),
        }) + answered(probes.skip(1))
    }
}

/// All probe answers named the same address.
pub open spec fn all_same(xs: Seq<Seq<char>>) -> bool {
    xs.len() >= 1 && forall|i: int| 0 <= i < xs.len() ==> #[trigger] xs[i] == xs[0]
}

/// The confidence the detection rule assigns.
pub open spec fn detection_confidence(xs: Seq<Seq<char>>) -> int {
    if all_same(xs) && xs.len() >= 3 {
        90
    } else if all_same(xs) {
        70
    } else {
        0
    }
}

/// Analyzes the outcomes of the random-label probes of one zone.
///
/// Each probe outcome is the answered IP text, or `None` when the label did
/// not resolve. When every answered probe names one single address the zone
/// is a wildcard: with at least three answers the confidence is 90 percent,
/// with fewer it is 70; otherwise no wildcard is detected.
pub fn analyze_probes(base_domain: String, probes: &Vec<Option<String>>) -> (r: WildcardAnalysis)
    ensures
        r.base_domain == base_domain,
        r.has_wildcard == all_same(answered(probes@)),
        r.confidence_pct == detection_confidence(answered(probes@)),
        r.has_wildcard ==> r.wildcard_ips@.len() == 1 && r.wildcard_ips@[0]@ == answered(
            probes@,
        )[0],
        !r.has_wildcard ==> r.wildcard_ips@.len() == 0,
        r.bypass_attempts@.len() == 0,
{
    let ghost all = probes@;
    let mut texts: Vec<String> = Vec::new();
    let mut k: usize = 0;
    proof {
        assert(all.skip(0) =~= all);
        assert(texts@.map_values(|s: String| s@) + answered(all) =~= answered(all));
    }
    while k < probes.len()
        invariant
            k <= all.len(),
            all == probes@,
            texts@.map_values(|s: String| s@) + answered(all.skip(k as int)) == answered(all),
        decreases all.len() - k,
    {
        proof {
            assert(all.skip(k as int)[0] == all[k as int]);
            assert(all.skip(k as int).skip(1) =~= all.skip(k as int + 1));
        }
        let ghost pre = texts@.map_values(|s: String| s@);
        match &probes[k] {
            Some(s) => {
                texts.push(s.clone());
                proof {
                    assert(texts@.map_values(|s: String| s@) =~= pre + seq![all[k as int]->Some_0@]);
                    assert(texts@.map_values(|s: String| s@) + answered(all.skip(k as int + 1))
                        =~= pre + answered(all.skip(k as int)));
                }
            },
            None => {
                proof {
                    assert(answered(all.skip(k as int)) == answered(all.skip(k as int + 1)));
                }
            },
        }
        k = k + 1;
    }
    proof {
        assert(answered(all.skip(all.len() as int)) =~= Seq::<Seq<char>>::empty());
        assert(texts@.map_values(|s: String| s@) + answered(all.skip(all.len() as int))
            =~= texts@.map_values(|s: String| s@));
    }
    let ghost xs = answered(all);
    if texts.len() == 0 {
        return WildcardAnalysis {
            base_domain,
            has_wildcard: false,
            wildcard_ips: Vec::new(),
            confidence_pct: 0,
            bypass_attempts: Vec::new(),
        };
    }
    let mut same = true;
    let mut i: usize = 1;
    while i < texts.len() && same
        invariant
            1 <= i <= texts@.len(),
            texts@.len() >= 1,
            texts@.map_values(|s: String| s@) == xs,
            same ==> forall|j: int| 0 <= j < i ==> #[trigger] xs[j] == xs[0],
            !same ==> exists|j: int| 0 <= j < texts@.len() && #[trigger] xs[j] != xs[0],
        decreases texts@.len() - i,
    {
        if !(texts[i] == texts[0]) {
            proof {
                assert(xs[i as int] != xs[0]);
            }
            same = false;
        }
        i = i + 1;
    }
    if same {
        let confidence: u8 = if texts.len() >= 3 {
            90
        } else {
            70
        };
        let mut ips: Vec<String> = Vec::new();
        ips.push(texts[0].clone());
        proof {
            assert(all_same(xs));
        }
        WildcardAnalysis {
            base_domain,
            has_wildcard: true,
            wildcard_ips: ips,
            confidence_pct: confidence,
            bypass_attempts: Vec::new(),
        }
    } else {
        proof {
            assert(!all_same(xs));
        }
        WildcardAnalysis {
            base_domain,
            has_wildcard: false,
            wildcard_ips: Vec::new(),
            confidence_pct: 0,
            bypass_attempts: Vec::new(),
        }
    }
}

/// Wildcard detection determinism: when every probe of a zone answers with
/// one address `x` and at least three probes ran, the detection rule finds a
/// wildcard with `{x}` as its address set and a confidence of 90 percent.
pub proof fn lemma_wildcard_determinism(probes: Seq<Option<String>>, x: String)
    requires
        probes.len() >= 3,
        forall|i: int| 0 <= i < probes.len() ==> #[trigger] probes[i] == Some(x),
    ensures
        all_same(answered(probes)),
        answered(probes).len() == probes.len(),
        answered(probes)[0] == x@,
        detection_confidence(answered(probes)) == 90,
{
    lemma_answered_constant(probes, x);
}

proof fn lemma_answered_constant(probes: Seq<Option<String>>, x: String)
    requires
        forall|i: int| 0 <= i < probes.len() ==> #[trigger] probes[i] == Some(x),
    ensures
        answered(probes).len() == probes.len(),
        forall|i: int| 0 <= i < probes.len() ==> #[trigger] answered(probes)[i] == x@,
    decreases probes.len(),
{
    if probes.len() > 0 {
        assert(forall|i: int| 0 <= i < probes.skip(1).len() ==> #[trigger] probes.skip(1)[i]
            == probes[i + 1]);
        lemma_answered_constant(probes.skip(1), x);
        assert(forall|i: int| 0 <= i < probes.len() ==> #[trigger] answered(probes)[i] == (if i == 0 {
            x@
        } else {
            answered(probes.skip(1))[i - 1]
        }));
    }
}

/// A random lowercase label of the given length.
///
/// Relies on `rand::Rng::gen_range` over `rand::thread_rng`: each drawn byte
/// lies in the requested `b'a'..=b'z'` range. Nothing else is promised of
/// the outcome — the label is random.
#[verifier::external_body]
fn random_label(len: usize) -> (r: String)
    ensures
        r@.len() == len,
        forall|i: int| 0 <= i < r@.len() ==> 'a' <= #[trigger] r@[i] && r@[i] <= 'z',
{
    let mut rng = rand::thread_rng();
    let mut s = String::new();
    for _ in 0..len {
        let b: u8 = rand::Rng::gen_range(&mut rng, b'a'..=b'z');
        s.push(b as char);
    }
    s
}

/// A random sixteen-character sub-label of the base domain, for wildcard
/// probing: `<random>.<base>`.
pub fn random_subdomain(base: &str) -> (r: String)
    ensures
        r@.len() == 17 + base@.len(),
        forall|i: int| 0 <= i < 16 ==> 'a' <= #[trigger] r@[i] && r@[i] <= 'z',
        r@[16] == '.',
        r@.skip(17) == base@,
{
    let label = random_label(16);
    let mut v = chars_of_str(label.as_str());
    v.push('.');
    let b = chars_of_str(base);
    push_all(&mut v, &b);
    proof {
        assert(v@.skip(17) =~= base@);
    }
    string_from_chars(&v)
}

/// Dot-joined concatenation of label pieces.
pub open spec fn join_dot(gs: Seq<Seq<char>>) -> Seq<char>
    decreases gs.len(),
{
    if gs.len() == 0 {
        Seq::empty()
    } else if gs.len() == 1 {
        gs[0]
    } else {
        gs[0] + seq!['.'] + join_dot(gs.skip(1))
    }
}

/// The strict suffix zones of a domain, outermost label dropped first:
/// for `a.b.c` these are `b.c` and `c`.
pub open spec fn spec_zone_suffixes(s: Seq<char>) -> Seq<Seq<char>> {
    let gs = split_sep(s, '.');
    Seq::new((gs.len() - 1) as nat, |i: int| join_dot(gs.skip(i + 1)))
}

/// Joins the labels from `from` on with dots.
fn join_dot_exec(groups: &Vec<Vec<char>>, from: usize) -> (r: Vec<char>)
    requires
        from <= groups@.len(),
    ensures
        r@ == join_dot(groups@.map_values(|g: Vec<char>| g@).skip(from as int)),
    decreases groups@.len() - from,
{
    let ghost m = groups@.map_values(|g: Vec<char>| g@);
    if from == groups.len() {
        let r: Vec<char> = Vec::new();
        proof {
            assert(m.skip(from as int).len() == 0);
            assert(r@ =~= join_dot(m.skip(from as int)));
        }
        r
    } else if from + 1 == groups.len() {
        let r = crate::ip::clone_chars(&groups[from]);
        proof {
            assert(m.skip(from as int).len() == 1);
            assert(m.skip(from as int)[0] == m[from as int]);
        }
        r
    } else {
        let mut r = crate::ip::clone_chars(&groups[from]);
        r.push('.');
        let tail = join_dot_exec(groups, from + 1);
        push_all(&mut r, &tail);
        proof {
            assert(m.skip(from as int)[0] == m[from as int]);
            assert(m.skip(from as int).skip(1) =~= m.skip(from as int + 1));
            assert(m.skip(from as int).len() >= 2);
            assert(r@ =~= join_dot(m.skip(from as int)));
        }
        r
    }
}

/// The strict suffix zones of a domain, nearest first.
pub fn zone_suffixes(domain: &str) -> (r: Vec<String>)
    ensures
        r@.len() == spec_zone_suffixes(domain@).len(),
        forall|i: int| 0 <= i < r@.len() ==> (#[trigger] r@[i])@ == spec_zone_suffixes(domain@)[i],
{
    let v = chars_of_str(domain);
    proof {
        assert(v@.skip(0) =~= v@);
    }
    let groups = split_sep_exec(&v, 0, '.');
    let ghost gs = split_sep(v@, '.');
    let mut out: Vec<String> = Vec::new();
    let mut i: usize = 1;
    proof {
        assert(groups@.map_values(|g: Vec<char>| g@) =~= gs);
    }
    while i < groups.len()
        invariant
            1 <= i,
            i <= groups@.len() || i == 1,
            groups@.map_values(|g: Vec<char>| g@) == gs,
            gs == split_sep(domain@, '.'),
            groups@.len() == gs.len(),
            out@.len() == i - 1,
            forall|j: int| 0 <= j < i - 1 ==> (#[trigger] out@[j])@ == join_dot(gs.skip(j + 1)),
        decreases groups@.len() - i,
    {
        let piece = join_dot_exec(&groups, i);
        out.push(string_from_chars(&piece));
        i = i + 1;
    }
    proof {
        assert(forall|j: int| 0 <= j < spec_zone_suffixes(domain@).len()
            ==> #[trigger] spec_zone_suffixes(domain@)[j] == join_dot(gs.skip(j + 1)));
    }
    out
}

/// The cached analysis for a zone, if any.
pub open spec fn spec_zone_lookup(entries: Seq<(String, WildcardAnalysis)>, zone: Seq<char>) -> Option<
    WildcardAnalysis,
>
    decreases entries.len(),
{
    if entries.len() == 0 {
        None
    } else if entries[0].0@ == zone {
        Some(entries[0].1)
    } else {
        spec_zone_lookup(entries.skip(1), zone)
    }
}

/// The analysis of the first strict suffix zone of a domain that the table
/// knows as a wildcard, walking the suffixes nearest first.
pub open spec fn spec_wildcard_zone(
    entries: Seq<(String, WildcardAnalysis)>,
    suffixes: Seq<Seq<char>>,
) -> Option<WildcardAnalysis>
    decreases suffixes.len(),
{
    if suffixes.len() == 0 {
        None
    } else {
        match spec_zone_lookup(entries, suffixes[0]) {
            Some(a) => if a.has_wildcard {
                Some(a)
            } else {
                spec_wildcard_zone(entries, suffixes.skip(1))
            },
            None => spec_wildcard_zone(entries, suffixes.skip(1)),
        }
    }
}

/// Whether one of the texts equals the key.
pub open spec fn texts_contain(ips: Seq<String>, key: Seq<char>) -> bool {
    exists|i: int| 0 <= i < ips.len() && (#[trigger] ips[i])@ == key
}

/// Occurrences of records whose value displays as `key`.
pub open spec fn group_count(rs: Seq<DnsRecord>, key: Seq<char>) -> int
    decreases rs.len(),
{
    if rs.len() == 0 {
        0
    } else {
        (if value_text(rs[0].value) == key {
            1int
        } else {
            0int
        }) + group_count(rs.skip(1), key)
    }
}

/// Whether the filter discards a record: its value group reaches the
/// threshold, some strict suffix zone of its domain is a detected wildcard
/// with confidence of at least 70 percent, and the value lies in that
/// zone's wildcard set.
pub open spec fn spec_discard(
    entries: Seq<(String, WildcardAnalysis)>,
    threshold: int,
    all: Seq<DnsRecord>,
    r: DnsRecord,
) -> bool {
    &&& group_count(all, value_text(r.value)) >= threshold
    &&& match spec_wildcard_zone(entries, spec_zone_suffixes(r.domain@)) {
        Some(a) => a.confidence_pct >= 70 && texts_contain(a.wildcard_ips@, value_text(r.value)),
        None => false,
    }
}

/// The records that survive the filter, in input order.
pub open spec fn spec_filtered(
    entries: Seq<(String, WildcardAnalysis)>,
    threshold: int,
    all: Seq<DnsRecord>,
    idx: int,
) -> Seq<DnsRecord>
    decreases all.len() - idx,
{
    if idx < 0 || idx >= all.len() {
        Seq::empty()
    } else {
        (if spec_discard(entries, threshold, all, all[idx]) {
            Seq::empty()
        } else {
            seq![all[idx]]
        }) + spec_filtered(entries, threshold, all, idx + 1)
    }
}

/// Wildcard filter: the per-zone analysis table, the zone a filter run was
/// created for, and the group-size threshold.
pub struct WildcardFilter {
    analyses: Vec<(String, WildcardAnalysis)>,
    base_domain: Option<String>,
    threshold: usize,
}

impl WildcardFilter {
    /// The cached analyses.
    pub closed spec fn spec_entries(&self) -> Seq<(String, WildcardAnalysis)> {
        self.analyses@
    }

    /// The base domain the filter was created for, if any.
    pub closed spec fn spec_base_domain(&self) -> Option<String> {
        self.base_domain
    }

    /// The group-size threshold.
    pub closed spec fn spec_threshold(&self) -> int {
        self.threshold as int
    }

    /// A filter with an empty analysis table.
    pub fn new(base_domain: Option<String>, threshold: usize) -> (r: WildcardFilter)
        ensures
            r.spec_entries().len() == 0,
            r.spec_base_domain() == base_domain,
            r.spec_threshold() == threshold,
    {
        WildcardFilter { analyses: Vec::new(), base_domain, threshold }
    }

    /// Caches the analysis of one zone. A fresh analysis for a zone shadows
    /// an older one.
    pub fn record_analysis(&mut self, zone: String, analysis: WildcardAnalysis)
        ensures
            final(self).spec_base_domain() == old(self).spec_base_domain(),
            final(self).spec_threshold() == old(self).spec_threshold(),
            spec_zone_lookup(final(self).spec_entries(), zone@) == Some(analysis),
            forall|z: Seq<char>|
                z != zone@ ==> #[trigger] spec_zone_lookup(final(self).spec_entries(), z)
                    == spec_zone_lookup(old(self).spec_entries(), z),
    {
        let ghost orig = self.analyses@;
        self.analyses.insert(0, (zone, analysis));
        proof {
            let s = self.analyses@;
            assert(s[0].0 == zone && s[0].1 == analysis);
            assert(s.skip(1) =~= orig);
            assert forall|z: Seq<char>| z != zone@ implies #[trigger] spec_zone_lookup(s, z)
                == spec_zone_lookup(orig, z) by {
                assert(s[0].0@ == zone@);
                assert(spec_zone_lookup(s, z) == spec_zone_lookup(s.skip(1), z));
            }
        }
    }

    /// The cached wildcard verdict for a zone: `Some(true)` for a detected
    /// wildcard, `Some(false)` for a probed non-wildcard, `None` when the
    /// zone was never probed.
    pub fn test_wildcard_cached(&self, zone: &str) -> (r: Option<bool>)
        ensures
            match spec_zone_lookup(self.spec_entries(), zone@) {
                Some(a) => r == Some(a.has_wildcard),
                None => r is None,
            },
    {
        let zs = String::from_str(zone);
        let mut i: usize = 0;
        proof {
            assert(self.analyses@.skip(0) =~= self.analyses@);
        }
        while i < self.analyses.len()
            invariant
                i <= self.analyses@.len(),
                zs@ == zone@,
                spec_zone_lookup(self.analyses@, zone@) == spec_zone_lookup(
                    self.analyses@.skip(i as int),
                    zone@,
                ),
            decreases self.analyses@.len() - i,
        {
            proof {
                assert(self.analyses@.skip(i as int)[0] == self.analyses@[i as int]);
                assert(self.analyses@.skip(i as int).skip(1) =~= self.analyses@.skip(i as int + 1));
            }
            if self.analyses[i].0 == zs {
                return Some(self.analyses[i].1.has_wildcard);
            }
            i = i + 1;
        }
        proof {
            assert(self.analyses@.skip(self.analyses@.len() as int).len() == 0);
        }
        None
    }

    /// The analysis of the first strict suffix zone of `domain` that is a
    /// detected wildcard, nearest suffix first — the zone-membership walk.
    pub fn wildcard_zone_of(&self, domain: &str) -> (r: Option<&WildcardAnalysis>)
        ensures
            match r {
                Some(a) => spec_wildcard_zone(self.spec_entries(), spec_zone_suffixes(domain@))
                    == Some(*a),
                None => (spec_wildcard_zone(self.spec_entries(), spec_zone_suffixes(domain@))
                    matches None),
            },
    {
        let suffixes = zone_suffixes(domain);
        let ghost sufspec = spec_zone_suffixes(domain@);
        let mut k: usize = 0;
        proof {
            assert(sufspec.skip(0) =~= sufspec);
        }
        while k < suffixes.len()
            invariant
                k <= suffixes@.len(),
                sufspec == spec_zone_suffixes(domain@),
                suffixes@.len() == sufspec.len(),
                forall|i: int| 0 <= i < suffixes@.len() ==> (#[trigger] suffixes@[i])@
                    == sufspec[i],
                spec_wildcard_zone(self.spec_entries(), sufspec) == spec_wildcard_zone(
                    self.spec_entries(),
                    sufspec.skip(k as int),
                ),
            decreases suffixes@.len() - k,
        {
            proof {
                assert(sufspec.skip(k as int)[0] == sufspec[k as int]);
                assert(sufspec.skip(k as int).skip(1) =~= sufspec.skip(k as int + 1));
            }
            match self.lookup_entry(&suffixes[k]) {
                Some(idx) => {
                    let a = &self.analyses[idx].1;
                    if a.has_wildcard {
                        proof {
                            assert(spec_zone_lookup(self.spec_entries(), sufspec[k as int])
                                == Some(self.analyses@[idx as int].1));
                            assert(spec_wildcard_zone(self.spec_entries(), sufspec.skip(k as int))
                                == Some(self.analyses@[idx as int].1));
                        }
                        return Some(a);
                    }
                },
                None => {},
            }
            k = k + 1;
        }
        proof {
            assert(sufspec.skip(sufspec.len() as int).len() == 0);
        }
        None
    }

    /// Index of the cached entry for a zone.
    fn lookup_entry(&self, zone: &String) -> (r: Option<usize>)
        ensures
            match r {
                Some(i) => i < self.spec_entries().len() && spec_zone_lookup(
                    self.spec_entries(),
                    zone@,
                ) == Some(self.spec_entries()[i as int].1) && self.spec_entries()[i as int].0@
                    == zone@,
                None => (spec_zone_lookup(self.spec_entries(), zone@) matches None),
            },
    {
        let mut i: usize = 0;
        proof {
            assert(self.analyses@.skip(0) =~= self.analyses@);
        }
        while i < self.analyses.len()
            invariant
                i <= self.analyses@.len(),
                spec_zone_lookup(self.analyses@, zone@) == spec_zone_lookup(
                    self.analyses@.skip(i as int),
                    zone@,
                ),
            decreases self.analyses@.len() - i,
        {
            proof {
                assert(self.analyses@.skip(i as int)[0] == self.analyses@[i as int]);
                assert(self.analyses@.skip(i as int).skip(1) =~= self.analyses@.skip(i as int + 1));
            }
            if self.analyses[i].0 == *zone {
                return Some(i);
            }
            i = i + 1;
        }
        proof {
            assert(self.analyses@.skip(self.analyses@.len() as int).len() == 0);
        }
        None
    }

    /// Whether the filter would discard this record of the batch.
    fn should_discard(&self, all: &Vec<DnsRecord>, rec: &DnsRecord) -> (r: bool)
        ensures
            r == spec_discard(self.spec_entries(), self.spec_threshold(), all@, *rec),
    {
        let key = rec.value.to_text_chars();
        let mut count: usize = 0;
        let mut i: usize = 0;
        proof {
            assert(all@.skip(0) =~= all@);
        }
        while i < all.len()
            invariant
                i <= all@.len(),
                count <= i,
                count + group_count(all@.skip(i as int), key@) == group_count(all@, key@),
            decreases all@.len() - i,
        {
            proof {
                assert(all@.skip(i as int)[0] == all@[i as int]);
                assert(all@.skip(i as int).skip(1) =~= all@.skip(i as int + 1));
            }
            let t = all[i].value.to_text_chars();
            if chars_equal(&t, &key) {
                count = count + 1;
            }
            i = i + 1;
        }
        proof {
            assert(all@.skip(all@.len() as int).len() == 0);
        }
        if count < self.threshold {
            return false;
        }
        match self.wildcard_zone_of(rec.domain.as_str()) {
            Some(a) => {
                if a.confidence_pct < 70 {
                    return false;
                }
                let mut j: usize = 0;
                while j < a.wildcard_ips.len()
                    invariant
                        j <= a.wildcard_ips@.len(),
                        forall|t: int| 0 <= t < j ==> (#[trigger] a.wildcard_ips@[t])@ != key@,
                        key@ == value_text(rec.value),
                        spec_wildcard_zone(
                            self.spec_entries(),
                            spec_zone_suffixes(rec.domain@),
                        ) == Some(*a),
                        a.confidence_pct >= 70,
                        group_count(all@, key@) >= self.spec_threshold(),
                    decreases a.wildcard_ips@.len() - j,
                {
                    let ip_chars = chars_of_str(a.wildcard_ips[j].as_str());
                    if chars_equal(&ip_chars, &key) {
                        return true;
                    }
                    j = j + 1;
                }
                false
            },
            None => false,
        }
    }

    /// Removes the records of detected wildcard groups: a record is dropped
    /// exactly when its value group reaches the threshold, a strict suffix
    /// zone of its domain is a detected wildcard with at least 70 percent
    /// confidence, and its value lies in that zone's wildcard set. All other
    /// records pass through, in order.
    pub fn filter_by_ip(&self, records: Vec<DnsRecord>) -> (r: Vec<DnsRecord>)
        ensures
            r@ == spec_filtered(self.spec_entries(), self.spec_threshold(), records@, 0),
            forall|i: int|
                0 <= i < r@.len() ==> !spec_discard(
                    self.spec_entries(),
                    self.spec_threshold(),
                    records@,
                    #[trigger] r@[i],
                ),
    {
        let ghost all = records@;
        let mut decisions: Vec<bool> = Vec::new();
        let mut i: usize = 0;
        while i < records.len()
            invariant
                i <= all.len(),
                all == records@,
                decisions@.len() == i,
                forall|j: int| 0 <= j < i ==> #[trigger] decisions@[j] == spec_discard(
                    self.spec_entries(),
                    self.spec_threshold(),
                    all,
                    all[j],
                ),
            decreases all.len() - i,
        {
            let d = self.should_discard(&records, &records[i]);
            decisions.push(d);
            i = i + 1;
        }
        let mut out: Vec<DnsRecord> = Vec::new();
        let mut rest = records;
        let n_all = rest.len();
        let mut k: usize = 0;
        proof {
            assert(all.skip(0) =~= all);
            assert(out@ + spec_filtered(self.spec_entries(), self.spec_threshold(), all, 0)
                =~= spec_filtered(self.spec_entries(), self.spec_threshold(), all, 0));
        }
        while rest.len() > 0
            invariant
                all.len() == n_all,
                rest@ == all.skip(k as int),
                k <= all.len(),
                decisions@.len() == all.len(),
                forall|j: int| 0 <= j < all.len() ==> #[trigger] decisions@[j] == spec_discard(
                    self.spec_entries(),
                    self.spec_threshold(),
                    all,
                    all[j],
                ),
                out@ + spec_filtered(self.spec_entries(), self.spec_threshold(), all, k as int)
                    == spec_filtered(self.spec_entries(), self.spec_threshold(), all, 0),
                forall|i: int|
                    0 <= i < out@.len() ==> !spec_discard(
                        self.spec_entries(),
                        self.spec_threshold(),
                        all,
                        #[trigger] out@[i],
                    ),
            decreases rest@.len(),
        {
            let ghost pre = rest@;
            let rec = rest.remove(0);
            proof {
                assert(rest@ =~= pre.skip(1));
                assert(pre.skip(1) =~= all.skip(k as int + 1));
                assert(pre[0] == all[k as int]);
            }
            let d = decisions[k];
            let ghost pre_out = out@;
            if !d {
                out.push(rec);
            }
            proof {
                let e = self.spec_entries();
                let th = self.spec_threshold();
                if d {
                    assert(out@ + spec_filtered(e, th, all, k as int + 1) =~= pre_out
                        + spec_filtered(e, th, all, k as int));
                } else {
                    assert(out@ + spec_filtered(e, th, all, k as int + 1) =~= pre_out
                        + spec_filtered(e, th, all, k as int));
                }
            }
            k = k + 1;
        }
        proof {
            assert(spec_filtered(self.spec_entries(), self.spec_threshold(), all, k as int).len()
                == 0);
            assert(out@ + spec_filtered(self.spec_entries(), self.spec_threshold(), all, k as int)
                =~= out@);
        }
        out
    }

    /// Filters a batch: with no base domain configured the records pass
    /// through unchanged; otherwise groups matching detected wildcard zones
    /// are removed.
    pub fn filter(&self, records: Vec<DnsRecord>) -> (r: Vec<DnsRecord>)
        ensures
            self.spec_base_domain() is None ==> r@ == records@,
            self.spec_base_domain() is Some ==> r@ == spec_filtered(
                self.spec_entries(),
                self.spec_threshold(),
                records@,
                0,
            ),
    {
        match &self.base_domain {
            None => records,
            Some(_) => self.filter_by_ip(records),
        }
    }
}

/// Filter soundness: a record whose value lies in the wildcard set of its
/// detected zone (at 70 percent confidence or more), and whose value group
/// reaches the threshold, never appears in the filter's output.
pub proof fn lemma_filter_soundness(
    entries: Seq<(String, WildcardAnalysis)>,
    threshold: int,
    all: Seq<DnsRecord>,
    r: DnsRecord,
)
    requires
        group_count(all, value_text(r.value)) >= threshold,
        (spec_wildcard_zone(entries, spec_zone_suffixes(r.domain@)) matches Some(a)
            && a.confidence_pct >= 70 && texts_contain(a.wildcard_ips@, value_text(r.value))),
    ensures
        forall|i: int|
            0 <= i < spec_filtered(entries, threshold, all, 0).len() ==> #[trigger] spec_filtered(
                entries,
                threshold,
                all,
                0,
            )[i] != r,
{
    lemma_filtered_excludes(entries, threshold, all, r, 0);
}

proof fn lemma_filtered_excludes(
    entries: Seq<(String, WildcardAnalysis)>,
    threshold: int,
    all: Seq<DnsRecord>,
    r: DnsRecord,
    idx: int,
)
    requires
        spec_discard(entries, threshold, all, r),
    ensures
        forall|i: int|
            0 <= i < spec_filtered(entries, threshold, all, idx).len() ==> #[trigger] spec_filtered(
                entries,
                threshold,
                all,
                idx,
            )[i] != r,
    decreases all.len() - idx,
{
    if 0 <= idx < all.len() {
        lemma_filtered_excludes(entries, threshold, all, r, idx + 1);
        let whole = spec_filtered(entries, threshold, all, idx);
        let tail = spec_filtered(entries, threshold, all, idx + 1);
        if spec_discard(entries, threshold, all, all[idx]) {
            assert(forall|i: int| 0 <= i < whole.len() ==> whole[i] == tail[i]);
        } else {
            assert(whole[0] == all[idx]);
            assert(all[idx] != r);
            assert(forall|i: int| 1 <= i < whole.len() ==> whole[i] == tail[i - 1]);
        }
    }
}

/// Equality of character vectors.
pub fn chars_equal(a: &Vec<char>, b: &Vec<char>) -> (r: bool)
    ensures
        r == (a@ == b@),
{
    if a.len() != b.len() {
        proof {
            assert(a@.len() != b@.len());
        }
        return false;
    }
    let mut i: usize = 0;
    while i < a.len()
        invariant
            i <= a@.len(),
            a@.len() == b@.len(),
            forall|j: int| 0 <= j < i ==> #[trigger] a@[j] == b@[j],
        decreases a@.len() - i,
    {
        if a[i] != b[i] {
            return false;
        }
        i = i + 1;
    }
    proof {
        assert(a@ =~= b@);
    }
    true
}

} // verus!
