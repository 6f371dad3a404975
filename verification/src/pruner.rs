use vstd::prelude::*;

verus! {

broadcast use vstd::seq_lib::group_seq_properties;

/// A span of time: whole seconds and the nanoseconds beyond them.
#[derive(Clone, Copy, Debug, PartialEq, Eq)]
pub struct Span {
    pub secs: u64,
    pub nanos: u32,
}

/// Whether `a` is no longer than `b`.
pub open spec fn span_le(a: Span, b: Span) -> bool {
    a.secs < b.secs || (a.secs == b.secs && a.nanos <= b.nanos)
}

/// The kinds pruned when none are configured: nip29 chat, threads and replies.
pub open spec fn default_kinds() -> Seq<u16> {
    seq![9u16, 11u16, 12u16]
}

/// The kinds that are never pruned: nip29 group management (9000 to 9011) and group
/// state (39000 to 39003), without which groups lose their identity or their admins.
pub open spec fn is_protected_kind(kind: u16) -> bool {
    (9000 <= kind <= 9011) || (39000 <= kind <= 39003)
}

/// Holds of the kinds that may be pruned.
pub open spec fn prunable() -> spec_fn(u16) -> bool {
    |k: u16| !is_protected_kind(k)
}

/// The scan interval used when none is configured: about 48 scans across the
/// retention window, at least a minute and at most six hours.
pub open spec fn default_interval_secs(retention_secs: u64) -> u64 {
    let s = retention_secs / 48;
    if s < 60 {
        60
    } else if s > 21600 {
        21600
    } else {
        s
    }
}

/// Whether a kind is one the pruner never deletes.
pub fn protected_kind(kind: u16) -> (r: bool)
    ensures
        r == is_protected_kind(kind),
{
    (9000 <= kind && kind <= 9011) || (39000 <= kind && kind <= 39003)
}

/// The kinds pruned when none are configured.
pub fn default_prune_kinds() -> (r: Vec<u16>)
    ensures
        r@ == default_kinds(),
{
    let r = vec![9u16, 11u16, 12u16];
    assert(r@ =~= default_kinds());
    r
}

/// The protected kinds among `kinds`, in order.
pub fn protected_kinds_in(kinds: &Vec<u16>) -> (r: Vec<u16>)
    ensures
        r@ == kinds@.filter(|k: u16| is_protected_kind(k)),
{
    let ghost p = |k: u16| is_protected_kind(k);
    let mut out: Vec<u16> = Vec::new();
    let n = kinds.len();
    for i in 0..n
        invariant
            n == kinds@.len(),
            p == (|k: u16| is_protected_kind(k)),
            out@ == kinds@.subrange(0, i as int).filter(p),
    {
        if protected_kind(kinds[i]) {
            out.push(kinds[i]);
        }
        proof {
            assert(kinds@.subrange(0, i + 1) =~= kinds@.subrange(0, i as int).push(kinds@[i as int]));
            kinds@.subrange(0, i as int).lemma_filter_push(kinds@[i as int], p);
        }
    }
    assert(kinds@.subrange(0, n as int) =~= kinds@);
    out
}

/// The pruner's settings.
#[derive(Clone, Debug)]
pub struct PrunerConfig {
    pub retention: Span,
    pub interval: Span,
    pub kinds: Vec<u16>,
}

impl PrunerConfig {
    /// Settings from the configuration: the interval defaults to about 48 scans across
    /// the retention window, clamped to between a minute and six hours; the kinds
    /// default to nip29 chat, threads and replies; protected kinds are dropped.
    pub fn from_settings(retention: Span, interval: Option<Span>, kinds: Option<Vec<u16>>) -> (r: PrunerConfig)
        ensures
            r.retention == retention,
            r.interval == (match interval {
                Some(i) => i,
                None => Span { secs: default_interval_secs(retention.secs), nanos: 0 },
            }),
            r.kinds@ == (match kinds {
                Some(k) => k@,
                None => default_kinds(),
            }).filter(prunable()),
    {
        let interval = match interval {
            Some(i) => i,
            None => {
                let s = retention.secs / 48;
                let secs = if s < 60 {
                    60
                } else if s > 21600 {
                    21600
                } else {
                    s
                };
                Span { secs, nanos: 0 }
            },
        };
        let raw = match kinds {
            Some(k) => k,
            None => default_prune_kinds(),
        };
        let ghost p = prunable();
        let mut allowed: Vec<u16> = Vec::new();
        let n = raw.len();
        for i in 0..n
            invariant
                n == raw@.len(),
                p == prunable(),
                allowed@ == raw@.subrange(0, i as int).filter(p),
        {
            if !protected_kind(raw[i]) {
                allowed.push(raw[i]);
            }
            proof {
                assert(raw@.subrange(0, i + 1) =~= raw@.subrange(0, i as int).push(raw@[i as int]));
                raw@.subrange(0, i as int).lemma_filter_push(raw@[i as int], p);
            }
        }
        assert(raw@.subrange(0, n as int) =~= raw@);
        PrunerConfig { retention, interval, kinds: allowed }
    }

    /// The kinds pruned, as numbers.
    pub fn kinds_as_u16(&self) -> (r: Vec<u16>)
        ensures
            r@ == self.kinds@,
    {
        let mut out: Vec<u16> = Vec::new();
        let n = self.kinds.len();
        for i in 0..n
            invariant
                n == self.kinds@.len(),
                out@ == self.kinds@.subrange(0, i as int),
        {
            out.push(self.kinds[i]);
            assert(out@ =~= self.kinds@.subrange(0, i + 1));
        }
        assert(self.kinds@.subrange(0, n as int) =~= self.kinds@);
        out
    }

    /// How long to wait before the first run: the interval, but at most a minute.
    pub fn first_delay(&self) -> (r: Span)
        ensures
            r == (if span_le(self.interval, Span { secs: 60, nanos: 0 }) {
                self.interval
            } else {
                Span { secs: 60, nanos: 0 }
            }),
    {
        if self.interval.secs < 60 || (self.interval.secs == 60 && self.interval.nanos == 0) {
            self.interval
        } else {
            Span { secs: 60, nanos: 0 }
        }
    }
}

/// The settings never list a protected kind to prune, whatever is configured.
pub proof fn lemma_protected_kinds_never_pruned(retention: Span, interval: Option<Span>, kinds: Option<Seq<u16>>, k: u16)
    requires
        is_protected_kind(k),
    ensures
        !(match kinds {
            Some(ks) => ks,
            None => default_kinds(),
        }).filter(prunable()).contains(k),
{
    broadcast use vstd::seq_lib::group_filter_ensures;
    let ks = match kinds {
        Some(ks) => ks,
        None => default_kinds(),
    };
    if ks.filter(prunable()).contains(k) {
        let i = choose|i: int| 0 <= i < ks.filter(prunable()).len() && ks.filter(prunable())[i] == k;
        ks.lemma_filter_pred(prunable(), i);
    }
}

/// The kinds the relay keeps whatever the configuration says, listed one by one:
/// nip29 group management events and the group state (metadata, admins, members,
/// roles) that the relay rebuilds its groups from.
pub open spec fn never_prune_kinds() -> Seq<u16> {
    seq![
        9000u16, 9001u16, 9002u16, 9003u16, 9004u16, 9005u16, 9006u16, 9007u16, 9008u16, 9009u16, 9010u16, 9011u16,
        39000u16, 39001u16, 39002u16, 39003u16,
    ]
}

/// A kind is protected exactly when it is on the never-prune list, so the settings
/// never prune a listed kind, whatever is configured.
pub proof fn lemma_never_prune_kinds_protected(kinds: Option<Seq<u16>>, k: u16)
    ensures
        is_protected_kind(k) <==> never_prune_kinds().contains(k),
        never_prune_kinds().contains(k) ==> !(match kinds {
            Some(ks) => ks,
            None => default_kinds(),
        }).filter(prunable()).contains(k),
{
    let l = never_prune_kinds();
    assert(l =~= Seq::new(16, |i: int| if i < 12 { (9000 + i) as u16 } else { (38988 + i) as u16 }));
    if is_protected_kind(k) {
        let i: int = if k <= 9011 { k - 9000 } else { k - 38988 };
        assert(l[i] == k);
    }
    if l.contains(k) {
        lemma_protected_kinds_never_pruned(Span { secs: 0, nanos: 0 }, None, kinds, k);
    }
}

/// Every kind that is not protected and is configured is pruned.
pub proof fn lemma_unprotected_kinds_pruned(kinds: Seq<u16>, k: u16)
    requires
        kinds.contains(k),
        !is_protected_kind(k),
    ensures
        kinds.filter(prunable()).contains(k),
{
    broadcast use vstd::seq_lib::group_filter_ensures;
    let i = choose|i: int| 0 <= i < kinds.len() && kinds[i] == k;
    kinds.lemma_filter_contains(prunable(), i);
}

/// The default interval lies between a minute and six hours.
pub proof fn lemma_default_interval_bounds(retention_secs: u64)
    ensures
        60 <= default_interval_secs(retention_secs) <= 21600,
{
}

/// The pruner's running totals.
#[derive(Debug)]
pub struct PrunerStats {
    /// Events deleted since the process started, across all runs (wrapping).
    pub total_pruned: u64,
    /// Unix seconds of the last completed run, or 0 if none.
    pub last_run_unix: i64,
    /// Completed runs (wrapping).
    pub runs: u64,
}

impl PrunerStats {
    /// No run yet.
    pub fn new() -> (r: PrunerStats)
        ensures
            r.total_pruned == 0,
            r.last_run_unix == 0,
            r.runs == 0,
    {
        PrunerStats { total_pruned: 0, last_run_unix: 0, runs: 0 }
    }

    /// Records a completed run that deleted `deleted` events, at `now_unix` seconds
    /// when the clock could be read (0 is recorded otherwise).
    pub fn record_run(&mut self, deleted: u64, now_unix: Option<u64>)
        ensures
            final(self).total_pruned == (old(self).total_pruned + deleted) % 0x1_0000_0000_0000_0000,
            final(self).runs == (old(self).runs + 1) % 0x1_0000_0000_0000_0000,
            final(self).last_run_unix == (match now_unix {
                Some(s) => s as i64,
                None => 0i64,
            }),
    {
        self.total_pruned = self.total_pruned.wrapping_add(deleted);
        self.runs = self.runs.wrapping_add(1);
        self.last_run_unix = match now_unix {
            Some(s) => s as i64,
            None => 0,
        };
    }
}

/// Where a pruning run stands.
#[derive(Clone, Copy, Debug, PartialEq, Eq)]
pub enum PruneStage {
    ReadClock,
    ListScopes,
    Counting,
    Deleting,
    Done,
}

/// What a pruning run asks of its driver next.
#[derive(Clone, Debug, PartialEq, Eq)]
pub enum PruneStep {
    /// Read the wall clock, in Unix seconds.
    ReadClock,
    /// List the database scopes.
    ListScopes,
    /// Count the events of the given kinds created up to `until` in the scope.
    Count { scope: usize, until: u64, kinds: Vec<u16> },
    /// Delete the events of the given kinds created up to `until` in the scope.
    Delete { scope: usize, until: u64, kinds: Vec<u16> },
    /// Record a completed run that deleted `deleted` events.
    Record { deleted: u64 },
    /// Stop without recording anything.
    Stop,
}

/// The fields of a step.
pub enum PruneStepView {
    ReadClock,
    ListScopes,
    Count { scope: usize, until: u64, kinds: Seq<u16> },
    Delete { scope: usize, until: u64, kinds: Seq<u16> },
    Record { deleted: u64 },
    Stop,
}

impl View for PruneStep {
    type V = PruneStepView;

    open spec fn view(&self) -> PruneStepView {
        match self {
            PruneStep::ReadClock => PruneStepView::ReadClock,
            PruneStep::ListScopes => PruneStepView::ListScopes,
            PruneStep::Count { scope, until, kinds } => PruneStepView::Count { scope: *scope, until: *until, kinds: kinds@ },
            PruneStep::Delete { scope, until, kinds } => PruneStepView::Delete { scope: *scope, until: *until, kinds: kinds@ },
            PruneStep::Record { deleted } => PruneStepView::Record { deleted: *deleted },
            PruneStep::Stop => PruneStepView::Stop,
        }
    }
}

/// A list of kinds that bounds what a count or a delete may touch to kinds that may
/// be pruned: it names at least one kind (a filter without kinds would match every
/// kind) and no protected one.
pub open spec fn safe_kinds(kinds: Seq<u16>) -> bool {
    kinds.len() > 0 && forall|i: int| 0 <= i < kinds.len() ==> !is_protected_kind(#[trigger] kinds[i])
}

/// A step that touches the database only within safe kinds.
pub open spec fn safe_step(step: PruneStepView) -> bool {
    match step {
        PruneStepView::Count { kinds, .. } => safe_kinds(kinds),
        PruneStepView::Delete { kinds, .. } => safe_kinds(kinds),
        _ => true,
    }
}

/// A step that touches the database only within the prunable kinds of `configured`:
/// every count and delete names exactly those kinds, and they are safe.
pub open spec fn step_within(configured: Seq<u16>, step: PruneStepView) -> bool {
    match step {
        PruneStepView::Count { kinds, .. } => kinds == configured.filter(prunable()) && safe_kinds(kinds),
        PruneStepView::Delete { kinds, .. } => kinds == configured.filter(prunable()) && safe_kinds(kinds),
        _ => true,
    }
}

/// Every step that the run has handed out so far stays within the kinds it was
/// configured with.
pub open spec fn run_within_config(v: PruneRunView) -> bool {
    forall|i: int| 0 <= i < v.history.len() ==> step_within(v.origin, #[trigger] v.history[i])
}

/// One run of the pruner: it reads the clock, lists the scopes, and for each scope in
/// turn counts the old events of the pruned kinds and deletes them where there are
/// any. With no kind to prune it still lists the scopes, then counts and deletes
/// nothing.
pub struct PruneRun {
    retention_secs: u64,
    kinds: Vec<u16>,
    stage: PruneStage,
    cutoff: u64,
    scope_count: usize,
    scope: usize,
    pending: u64,
    deleted: u64,
    origin: Ghost<Seq<u16>>,
    history: Ghost<Seq<PruneStepView>>,
}

/// The state of a pruning run, with the kinds it was configured with and the steps it
/// has handed out so far.
pub struct PruneRunView {
    pub retention_secs: u64,
    pub kinds: Seq<u16>,
    pub stage: PruneStage,
    pub cutoff: u64,
    pub scope_count: usize,
    pub scope: usize,
    pub pending: u64,
    pub deleted: u64,
    pub origin: Seq<u16>,
    pub history: Seq<PruneStepView>,
}

/// What follows once scope `scope` is finished: the next scope is counted, or, after
/// the last, the run is recorded.
pub open spec fn step_after_scope(v: PruneRunView) -> PruneStepView {
    if v.scope + 1 < v.scope_count {
        PruneStepView::Count { scope: (v.scope + 1) as usize, until: v.cutoff, kinds: v.kinds }
    } else {
        PruneStepView::Record { deleted: v.deleted }
    }
}

/// The run moved past scope `old.scope`: to the next scope, counting, or, after the
/// last, to the end.
pub open spec fn moved_on(old: PruneRunView, new: PruneRunView) -> bool {
    if old.scope + 1 < old.scope_count {
        new.scope == old.scope + 1 && new.stage == PruneStage::Counting
    } else {
        new.scope == old.scope && new.stage == PruneStage::Done
    }
}

impl View for PruneRun {
    type V = PruneRunView;

    closed spec fn view(&self) -> PruneRunView {
        PruneRunView {
            retention_secs: self.retention_secs,
            kinds: self.kinds@,
            stage: self.stage,
            cutoff: self.cutoff,
            scope_count: self.scope_count,
            scope: self.scope,
            pending: self.pending,
            deleted: self.deleted,
            origin: self.origin@,
            history: self.history@,
        }
    }
}

/// A copy of a list of kinds.
fn copy_kinds(kinds: &Vec<u16>) -> (r: Vec<u16>)
    ensures
        r@ == kinds@,
{
    let mut out: Vec<u16> = Vec::new();
    let n = kinds.len();
    for i in 0..n
        invariant
            n == kinds@.len(),
            out@ == kinds@.subrange(0, i as int),
    {
        out.push(kinds[i]);
        assert(out@ =~= kinds@.subrange(0, i + 1));
    }
    assert(kinds@.subrange(0, n as int) =~= kinds@);
    out
}

impl PruneRun {
    #[verifier::type_invariant]
    spec fn kinds_safe(&self) -> bool {
        &&& self.kinds@ == self.origin@.filter(prunable())
        &&& forall|i: int| 0 <= i < self.kinds@.len() ==> !is_protected_kind(#[trigger] self.kinds@[i])
        &&& (self.stage == PruneStage::Counting || self.stage == PruneStage::Deleting) ==> {
            &&& self.kinds@.len() > 0
            &&& self.scope < self.scope_count
        }
        &&& forall|i: int| 0 <= i < self.history@.len() ==> step_within(self.origin@, #[trigger] self.history@[i])
    }

    /// A run with the settings' retention and kinds (any protected kind among them is
    /// left out); it starts by reading the clock.
    pub fn new(config: &PrunerConfig) -> (r: PruneRun)
        ensures
            r@.retention_secs == config.retention.secs,
            r@.kinds == config.kinds@.filter(prunable()),
            (forall|i: int| 0 <= i < config.kinds@.len() ==> !is_protected_kind(#[trigger] config.kinds@[i]))
                ==> r@.kinds == config.kinds@,
            r@.stage == PruneStage::ReadClock,
            r@.deleted == 0,
            r@.origin == config.kinds@,
            r@.history == Seq::<PruneStepView>::empty(),
    {
        let ghost p = prunable();
        let mut kinds: Vec<u16> = Vec::new();
        let n = config.kinds.len();
        for i in 0..n
            invariant
                n == config.kinds@.len(),
                p == prunable(),
                kinds@ == config.kinds@.subrange(0, i as int).filter(p),
                forall|j: int| 0 <= j < kinds@.len() ==> !is_protected_kind(#[trigger] kinds@[j]),
        {
            let k = config.kinds[i];
            if !protected_kind(k) {
                kinds.push(k);
            }
            proof {
                assert(config.kinds@.subrange(0, i + 1) =~= config.kinds@.subrange(0, i as int).push(k));
                config.kinds@.subrange(0, i as int).lemma_filter_push(k, p);
            }
        }
        assert(config.kinds@.subrange(0, n as int) =~= config.kinds@);
        proof {
            lemma_filter_keeps_prunable(config.kinds@);
        }
        PruneRun {
            retention_secs: config.retention.secs,
            kinds,
            stage: PruneStage::ReadClock,
            cutoff: 0,
            scope_count: 0,
            scope: 0,
            pending: 0,
            deleted: 0,
            origin: Ghost(config.kinds@),
            history: Ghost(Seq::empty()),
        }
    }

    /// Notes `step` as handed out.
    fn hand_out(&mut self, step: PruneStep) -> (r: PruneStep)
        requires
            step_within(old(self)@.origin, step@),
        ensures
            r == step,
            final(self)@ == (PruneRunView { history: old(self)@.history.push(step@), ..old(self)@ }),
    {
        proof {
            use_type_invariant(&*self);
        }
        let ghost before = self.history@;
        self.history = Ghost(before.push(step@));
        assert forall|i: int| 0 <= i < self.history@.len() implies step_within(self.origin@, #[trigger] self.history@[i]) by {
            if i < before.len() {
                assert(self.history@[i] == before[i]);
            }
        }
        step
    }

    /// The clock read `now_secs`, or failed: the cutoff is that many seconds before
    /// now (never below zero) and the scopes are listed next; a clock failure stops the
    /// run.
    pub fn clock_read(&mut self, now_secs: Option<u64>) -> (r: PruneStep)
        requires
            old(self)@.stage == PruneStage::ReadClock,
        ensures
            match now_secs {
                Some(now) => {
                    &&& final(self)@.cutoff == (if now >= old(self)@.retention_secs {
                        (now - old(self)@.retention_secs) as u64
                    } else {
                        0u64
                    })
                    &&& r@ == PruneStepView::ListScopes
                    &&& final(self)@.stage == PruneStage::ListScopes
                },
                None => r@ == PruneStepView::Stop && final(self)@.stage == PruneStage::Done,
            },
            safe_step(r@),
            final(self)@.kinds == old(self)@.kinds,
            final(self)@.retention_secs == old(self)@.retention_secs,
            final(self)@.deleted == old(self)@.deleted,
            final(self)@.origin == old(self)@.origin,
            final(self)@.history == old(self)@.history.push(r@),
            run_within_config(final(self)@),
    {
        proof {
            use_type_invariant(&*self);
        }
        let step = match now_secs {
            Some(now) => {
                self.cutoff = now.saturating_sub(self.retention_secs);
                self.stage = PruneStage::ListScopes;
                PruneStep::ListScopes
            },
            None => {
                self.stage = PruneStage::Done;
                PruneStep::Stop
            },
        };
        let r = self.hand_out(step);
        proof {
            use_type_invariant(&*self);
        }
        r
    }

    /// The scopes were listed (`scope_count` of them), or listing failed: the first
    /// scope is counted next, or with no scope or no kind to prune the run is recorded
    /// at once, as deleting nothing; a listing failure stops the run.
    pub fn scopes_listed(&mut self, scope_count: Option<usize>) -> (r: PruneStep)
        requires
            old(self)@.stage == PruneStage::ListScopes,
        ensures
            match scope_count {
                Some(n) => {
                    &&& final(self)@.scope_count == n
                    &&& final(self)@.scope == 0
                    &&& if n == 0 || old(self)@.kinds.len() == 0 {
                        r@ == PruneStepView::Record { deleted: old(self)@.deleted } && final(self)@.stage == PruneStage::Done
                    } else {
                        &&& r@ == PruneStepView::Count { scope: 0, until: old(self)@.cutoff, kinds: old(self)@.kinds }
                        &&& final(self)@.stage == PruneStage::Counting
                    }
                },
                None => r@ == PruneStepView::Stop && final(self)@.stage == PruneStage::Done,
            },
            safe_step(r@),
            final(self)@.kinds == old(self)@.kinds,
            final(self)@.cutoff == old(self)@.cutoff,
            final(self)@.retention_secs == old(self)@.retention_secs,
            final(self)@.deleted == old(self)@.deleted,
            final(self)@.origin == old(self)@.origin,
            final(self)@.history == old(self)@.history.push(r@),
            run_within_config(final(self)@),
    {
        proof {
            use_type_invariant(&*self);
        }
        let step = match scope_count {
            Some(n) => {
                self.scope_count = n;
                self.scope = 0;
                if n == 0 || self.kinds.len() == 0 {
                    self.stage = PruneStage::Done;
                    PruneStep::Record { deleted: self.deleted }
                } else {
                    let kinds = copy_kinds(&self.kinds);
                    self.stage = PruneStage::Counting;
                    PruneStep::Count { scope: 0, until: self.cutoff, kinds }
                }
            },
            None => {
                self.stage = PruneStage::Done;
                PruneStep::Stop
            },
        };
        let r = self.hand_out(step);
        proof {
            use_type_invariant(&*self);
        }
        r
    }

    /// Moves past the current scope.
    fn finish_scope(&mut self) -> (r: PruneStep)
        requires
            old(self)@.scope < old(self)@.scope_count,
            old(self)@.kinds.len() > 0,
        ensures
            r@ == step_after_scope(old(self)@),
            moved_on(old(self)@, final(self)@),
            final(self)@.kinds == old(self)@.kinds,
            final(self)@.cutoff == old(self)@.cutoff,
            final(self)@.scope_count == old(self)@.scope_count,
            final(self)@.retention_secs == old(self)@.retention_secs,
            final(self)@.deleted == old(self)@.deleted,
            final(self)@.pending == old(self)@.pending,
            final(self)@.origin == old(self)@.origin,
            final(self)@.history == old(self)@.history,
    {
        proof {
            use_type_invariant(&*self);
        }
        if self.scope + 1 < self.scope_count {
            let kinds = copy_kinds(&self.kinds);
            self.scope = self.scope + 1;
            self.stage = PruneStage::Counting;
            PruneStep::Count { scope: self.scope, until: self.cutoff, kinds }
        } else {
            self.stage = PruneStage::Done;
            PruneStep::Record { deleted: self.deleted }
        }
    }

    /// The current scope holds `count` old events, or counting failed, which counts as
    /// none: where there are some they are deleted next, otherwise the run moves on.
    pub fn counted(&mut self, count: Option<u64>) -> (r: PruneStep)
        requires
            old(self)@.stage == PruneStage::Counting,
        ensures
            match count {
                Some(n) if n > 0 => {
                    &&& r@ == PruneStepView::Delete { scope: old(self)@.scope, until: old(self)@.cutoff, kinds: old(self)@.kinds }
                    &&& final(self)@.stage == PruneStage::Deleting
                    &&& final(self)@.pending == n
                    &&& final(self)@.scope == old(self)@.scope
                },
                _ => r@ == step_after_scope(old(self)@) && moved_on(old(self)@, final(self)@),
            },
            safe_step(r@),
            final(self)@.kinds == old(self)@.kinds,
            final(self)@.cutoff == old(self)@.cutoff,
            final(self)@.scope_count == old(self)@.scope_count,
            final(self)@.retention_secs == old(self)@.retention_secs,
            final(self)@.deleted == old(self)@.deleted,
            final(self)@.origin == old(self)@.origin,
            final(self)@.history == old(self)@.history.push(r@),
            run_within_config(final(self)@),
    {
        proof {
            use_type_invariant(&*self);
        }
        let n = match count {
            Some(n) => n,
            None => 0,
        };
        let step = if n == 0 {
            self.finish_scope()
        } else {
            let kinds = copy_kinds(&self.kinds);
            self.pending = n;
            self.stage = PruneStage::Deleting;
            PruneStep::Delete { scope: self.scope, until: self.cutoff, kinds }
        };
        let r = self.hand_out(step);
        proof {
            use_type_invariant(&*self);
        }
        r
    }

    /// Deleting the current scope's old events succeeded or failed: on success the
    /// count is added to the run's total (saturating); either way the run moves on.
    pub fn deleted(&mut self, ok: bool) -> (r: PruneStep)
        requires
            old(self)@.stage == PruneStage::Deleting,
        ensures
            final(self)@.deleted == (if ok {
                if old(self)@.deleted + old(self)@.pending > u64::MAX {
                    u64::MAX
                } else {
                    (old(self)@.deleted + old(self)@.pending) as u64
                }
            } else {
                old(self)@.deleted
            }),
            r@ == step_after_scope(PruneRunView { deleted: final(self)@.deleted, ..old(self)@ }),
            moved_on(old(self)@, final(self)@),
            safe_step(r@),
            final(self)@.kinds == old(self)@.kinds,
            final(self)@.cutoff == old(self)@.cutoff,
            final(self)@.scope_count == old(self)@.scope_count,
            final(self)@.retention_secs == old(self)@.retention_secs,
            final(self)@.origin == old(self)@.origin,
            final(self)@.history == old(self)@.history.push(r@),
            run_within_config(final(self)@),
    {
        proof {
            use_type_invariant(&*self);
        }
        if ok {
            self.deleted = self.deleted.saturating_add(self.pending);
        }
        let step = self.finish_scope();
        let r = self.hand_out(step);
        proof {
            use_type_invariant(&*self);
        }
        r
    }
}

/// Keeping the prunable kinds of a list that has no protected kind keeps it whole.
pub proof fn lemma_filter_keeps_prunable(kinds: Seq<u16>)
    ensures
        (forall|i: int| 0 <= i < kinds.len() ==> !is_protected_kind(#[trigger] kinds[i])) ==> kinds.filter(prunable())
            == kinds,
    decreases kinds.len(),
{
    reveal(Seq::filter);
    if kinds.len() > 0 {
        lemma_filter_keeps_prunable(kinds.drop_last());
        if forall|i: int| 0 <= i < kinds.len() ==> !is_protected_kind(#[trigger] kinds[i]) {
            assert forall|i: int| 0 <= i < kinds.drop_last().len() implies !is_protected_kind(
                #[trigger] kinds.drop_last()[i],
            ) by {
                assert(kinds.drop_last()[i] == kinds[i]);
            }
            assert(kinds.drop_last().push(kinds.last()) =~= kinds);
        }
    }
}

/// Over a whole run, whatever was configured: a run started from the settings that
/// the configuration gives (`PruneRun::new` on `PrunerConfig::from_settings`) counts
/// and deletes, in every step it has handed out, exactly the settings' kinds: at
/// least one, each of them configured (or a default kind), and none protected.
pub proof fn lemma_runs_delete_only_configured_kinds(configured: Option<Seq<u16>>, run: PruneRunView)
    requires
        run.origin == (match configured {
            Some(ks) => ks,
            None => default_kinds(),
        }).filter(prunable()),
        run_within_config(run),
    ensures
        forall|i: int|
            0 <= i < run.history.len() && (#[trigger] run.history[i] is Count || run.history[i] is Delete) ==> {
                let kinds = if run.history[i] is Count {
                    run.history[i]->Count_kinds
                } else {
                    run.history[i]->Delete_kinds
                };
                &&& kinds == run.origin
                &&& kinds.len() > 0
                &&& forall|j: int|
                    0 <= j < kinds.len() ==> !is_protected_kind(#[trigger] kinds[j]) && (match configured {
                        Some(ks) => ks,
                        None => default_kinds(),
                    }).contains(kinds[j])
            },
{
    broadcast use vstd::seq_lib::group_filter_ensures;
    let raw = match configured {
        Some(ks) => ks,
        None => default_kinds(),
    };
    assert forall|j: int| 0 <= j < run.origin.len() implies !is_protected_kind(#[trigger] run.origin[j]) && raw.contains(
        run.origin[j],
    ) by {
        raw.lemma_filter_pred(prunable(), j);
        assert(raw.filter(prunable()).contains(run.origin[j]));
        raw.lemma_filter_contains_rev(prunable(), run.origin[j]);
    }
    lemma_filter_keeps_prunable(run.origin);
    assert forall|i: int|
        0 <= i < run.history.len() && (#[trigger] run.history[i] is Count || run.history[i] is Delete) implies {
        let kinds = if run.history[i] is Count {
            run.history[i]->Count_kinds
        } else {
            run.history[i]->Delete_kinds
        };
        &&& kinds == run.origin
        &&& kinds.len() > 0
        &&& forall|j: int| 0 <= j < kinds.len() ==> !is_protected_kind(#[trigger] kinds[j]) && raw.contains(kinds[j])
    } by {
        assert(step_within(run.origin, run.history[i]));
    }
}

} // verus!
