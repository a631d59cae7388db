//! Provisioning: the bookkeeping of forward-only migrations and of
//! ephemeral, uniquely named databases.
//!
//! A migration is identified by its version. A database records which
//! versions have been applied; running the migration set applies, in the
//! given ascending order, exactly those versions not yet recorded, so a
//! second run is a no-op. A server holds databases under unique names;
//! provisioning creates a fresh one and migrates it fully.

use vstd::prelude::*;

verus! {

/// Versions strictly ascending: the order migrations are applied in.
pub open spec fn sorted_strict(s: Seq<u64>) -> bool {
    forall|i: int, j: int| 0 <= i < j < s.len() ==> s[i] < s[j]
}

/// The versions a run applies: those of `avail`, in order, that `applied`
/// does not yet record.
pub open spec fn spec_plan(avail: Seq<u64>, applied: Seq<u64>) -> Seq<u64>
    decreases avail.len(),
{
    if avail.len() == 0 {
        Seq::empty()
    } else {
        let rest = spec_plan(avail.skip(1), applied);
        if applied.contains(avail[0]) {
            rest
        } else {
            seq![avail[0]] + rest
        }
    }
}

/// Planned versions come from `avail`.
pub proof fn lemma_plan_subset(avail: Seq<u64>, applied: Seq<u64>, x: u64)
    requires
        spec_plan(avail, applied).contains(x),
    ensures
        avail.contains(x),
    decreases avail.len(),
{
    if avail.len() > 0 {
        let rest = spec_plan(avail.skip(1), applied);
        if applied.contains(avail[0]) {
            lemma_plan_subset(avail.skip(1), applied, x);
            let j = choose|j: int| 0 <= j < avail.skip(1).len() && avail.skip(1)[j] == x;
            assert(avail[j + 1] == x);
        } else {
            let p = seq![avail[0]] + rest;
            let j = choose|j: int| 0 <= j < p.len() && p[j] == x;
            if j == 0 {
                assert(avail[0] == x);
            } else {
                assert(rest[j - 1] == x);
                lemma_plan_subset(avail.skip(1), applied, x);
                let t = choose|t: int| 0 <= t < avail.skip(1).len() && avail.skip(1)[t] == x;
                assert(avail[t + 1] == x);
            }
        }
    }
}

/// An unapplied available version is planned.
pub proof fn lemma_plan_keeps(avail: Seq<u64>, applied: Seq<u64>, x: u64)
    requires
        avail.contains(x),
        !applied.contains(x),
    ensures
        spec_plan(avail, applied).contains(x),
    decreases avail.len(),
{
    let rest = spec_plan(avail.skip(1), applied);
    if avail[0] == x {
        assert(!applied.contains(avail[0]));
        assert((seq![avail[0]] + rest)[0] == x);
    } else {
        let j = choose|j: int| 0 <= j < avail.len() && avail[j] == x;
        assert(avail.skip(1)[j - 1] == x);
        lemma_plan_keeps(avail.skip(1), applied, x);
        let t = choose|t: int| 0 <= t < rest.len() && rest[t] == x;
        if applied.contains(avail[0]) {
        } else {
            assert((seq![avail[0]] + rest)[t + 1] == x);
        }
    }
}

/// A run against a record that already holds every available version plans
/// nothing.
pub proof fn lemma_plan_empty(avail: Seq<u64>, applied: Seq<u64>)
    requires
        forall|j: int| 0 <= j < avail.len() ==> applied.contains(#[trigger] avail[j]),
    ensures
        spec_plan(avail, applied) =~= Seq::<u64>::empty(),
    decreases avail.len(),
{
    if avail.len() > 0 {
        assert(applied.contains(avail[0]));
        assert forall|j: int| 0 <= j < avail.skip(1).len() implies applied.contains(
            #[trigger] avail.skip(1)[j],
        ) by {
            assert(avail.skip(1)[j] == avail[j + 1]);
        }
        lemma_plan_empty(avail.skip(1), applied);
    }
}

/// Idempotence: after one run, the record holds everything available, so a
/// second run over the same set plans nothing and changes nothing.
pub proof fn lemma_migrations_idempotent(avail: Seq<u64>, applied: Seq<u64>)
    ensures
        spec_plan(avail, applied + spec_plan(avail, applied)) =~= Seq::<u64>::empty(),
{
    let p = spec_plan(avail, applied);
    let a2 = applied + p;
    assert forall|j: int| 0 <= j < avail.len() implies a2.contains(#[trigger] avail[j]) by {
        let x = avail[j];
        if applied.contains(x) {
            let t = choose|t: int| 0 <= t < applied.len() && applied[t] == x;
            assert(a2[t] == x);
        } else {
            lemma_plan_keeps(avail, applied, x);
            let t = choose|t: int| 0 <= t < p.len() && p[t] == x;
            assert(a2[applied.len() + t] == x);
        }
    }
    lemma_plan_empty(avail, a2);
}

/// Against a fresh record, the whole available set is planned, in order.
pub proof fn lemma_plan_fresh(avail: Seq<u64>)
    ensures
        spec_plan(avail, Seq::<u64>::empty()) =~= avail,
    decreases avail.len(),
{
    if avail.len() > 0 {
        lemma_plan_fresh(avail.skip(1));
        assert(!Seq::<u64>::empty().contains(avail[0]));
        assert(seq![avail[0]] + avail.skip(1) =~= avail);
    }
}

proof fn lemma_plan_snoc(avail: Seq<u64>, applied: Seq<u64>, x: u64)
    ensures
        spec_plan(avail.push(x), applied) == spec_plan(avail, applied) + (if applied.contains(x) {
            Seq::<u64>::empty()
        } else {
            seq![x]
        }),
    decreases avail.len(),
{
    if avail.len() == 0 {
        assert(avail.push(x)[0] == x);
        assert(avail.push(x).skip(1) =~= Seq::<u64>::empty());
        assert(spec_plan(Seq::<u64>::empty(), applied) == Seq::<u64>::empty());
        assert(spec_plan(avail, applied) == Seq::<u64>::empty());
        if applied.contains(x) {
            assert(spec_plan(avail.push(x), applied) == Seq::<u64>::empty());
            assert(spec_plan(avail, applied) + Seq::<u64>::empty() =~= Seq::<u64>::empty());
        } else {
            assert(spec_plan(avail.push(x), applied) == seq![x] + Seq::<u64>::empty());
            assert(seq![x] + Seq::<u64>::empty() =~= seq![x]);
            assert(spec_plan(avail, applied) + seq![x] =~= seq![x]);
        }
    } else {
        assert(avail.push(x)[0] == avail[0]);
        assert(avail.push(x).skip(1) =~= avail.skip(1).push(x));
        lemma_plan_snoc(avail.skip(1), applied, x);
        let restx = spec_plan(avail.skip(1).push(x), applied);
        let rest = spec_plan(avail.skip(1), applied);
        let tail = if applied.contains(x) {
            Seq::<u64>::empty()
        } else {
            seq![x]
        };
        if applied.contains(avail[0]) {
        } else {
            assert(seq![avail[0]] + (rest + tail) =~= (seq![avail[0]] + rest) + tail);
        }
    }
}

/// What a database has recorded: versions in order of application.
pub struct DatabaseModel {
    pub applied: Vec<u64>,
}

impl DatabaseModel {
    pub fn new() -> (r: Self)
        ensures
            r.applied@.len() == 0,
    {
        DatabaseModel { applied: Vec::new() }
    }

    /// Whether a version is recorded as applied.
    pub fn has_applied(&self, v: u64) -> (r: bool)
        ensures
            r == self.applied@.contains(v),
    {
        let mut j: usize = 0;
        while j < self.applied.len()
            invariant
                0 <= j <= self.applied@.len(),
                forall|t: int| 0 <= t < j ==> self.applied@[t] != v,
            decreases self.applied@.len() - j,
        {
            if self.applied[j] == v {
                return true;
            }
            j = j + 1;
        }
        proof {
            assert(!self.applied@.contains(v));
        }
        false
    }

    /// The versions a run would apply: those of `avail`, in order, that this
    /// record does not yet hold.
    pub fn migration_plan(&self, avail: &Vec<u64>) -> (r: Vec<u64>)
        ensures
            r@ == spec_plan(avail@, self.applied@),
    {
        let mut out: Vec<u64> = Vec::new();
        let mut i: usize = 0;
        proof {
            assert(avail@.take(0) =~= Seq::<u64>::empty());
            assert(out@ =~= spec_plan(avail@.take(0), self.applied@));
        }
        while i < avail.len()
            invariant
                0 <= i <= avail@.len(),
                out@ == spec_plan(avail@.take(i as int), self.applied@),
            decreases avail@.len() - i,
        {
            let v = avail[i];
            proof {
                let done = avail@.take(i as int);
                assert(avail@.take(i + 1) =~= done.push(v));
                lemma_plan_snoc(done, self.applied@, v);
                if self.applied@.contains(v) {
                    assert(out@ + Seq::<u64>::empty() =~= out@);
                } else {
                    assert(out@ + seq![v] =~= out@.push(v));
                }
            }
            if !self.has_applied(v) {
                out.push(v);
            }
            i = i + 1;
        }
        proof {
            assert(avail@.take(i as int) =~= avail@);
        }
        out
    }

    /// Run the migration set: record, in the given ascending order, exactly
    /// the versions not yet recorded. Versions already recorded are never
    /// re-run.
    pub fn apply_migrations(&mut self, avail: &Vec<u64>)
        requires
            sorted_strict(avail@),
        ensures
            final(self).applied@ == old(self).applied@ + spec_plan(avail@, old(self).applied@),
    {
        let ghost a0 = self.applied@;
        let mut i: usize = 0;
        proof {
            assert(avail@.take(0) =~= Seq::<u64>::empty());
            assert(a0 + spec_plan(avail@.take(0), a0) =~= a0);
        }
        while i < avail.len()
            invariant
                0 <= i <= avail@.len(),
                sorted_strict(avail@),
                self.applied@ == a0 + spec_plan(avail@.take(i as int), a0),
            decreases avail@.len() - i,
        {
            let v = avail[i];
            let run = !self.has_applied(v);
            proof {
                let done = avail@.take(i as int);
                let p = spec_plan(done, a0);
                assert(avail@.take(i + 1) =~= done.push(v));
                lemma_plan_snoc(done, a0, v);
                // the current record extends the initial one only by earlier
                // available versions, so the runtime check agrees with the plan
                if self.applied@.contains(v) && !a0.contains(v) {
                    let t = choose|t: int|
                        0 <= t < self.applied@.len() && self.applied@[t] == v;
                    assert(p[t - a0.len()] == v);
                    lemma_plan_subset(done, a0, v);
                    let u = choose|u: int| 0 <= u < done.len() && done[u] == v;
                    assert(avail@[u] == v && avail@[i as int] == v);
                    assert(false);
                }
                if !self.applied@.contains(v) && a0.contains(v) {
                    let t = choose|t: int| 0 <= t < a0.len() && a0[t] == v;
                    assert(self.applied@[t] == v);
                    assert(false);
                }
                if run {
                    assert(a0 + spec_plan(done.push(v), a0) =~= (a0 + p).push(v));
                } else {
                    assert(a0 + spec_plan(done.push(v), a0) =~= a0 + p);
                }
            }
            if run {
                self.applied.push(v);
            }
            i = i + 1;
        }
        proof {
            assert(avail@.take(i as int) =~= avail@);
        }
    }
}

/// A database under its server-unique name.
pub struct NamedDatabase {
    pub name: Vec<u8>,
    pub db: DatabaseModel,
}

/// What a database server holds.
pub struct ServerModel {
    pub databases: Vec<NamedDatabase>,
}

/// Whether some database carries this name.
pub open spec fn spec_has_db(s: Seq<NamedDatabase>, name: Seq<u8>) -> bool {
    exists|j: int| 0 <= j < s.len() && s[j].name@ == name
}

/// The applied-version record of the first database carrying this name.
pub open spec fn spec_db_state(s: Seq<NamedDatabase>, name: Seq<u8>) -> Option<Seq<u64>>
    decreases s.len(),
{
    if s.len() == 0 {
        None
    } else if s[0].name@ == name {
        Some(s[0].db.applied@)
    } else {
        spec_db_state(s.skip(1), name)
    }
}

/// One successful ephemeral provisioning step: a database under the fresh
/// name, fully migrated, is appended and nothing else moves.
pub open spec fn provision_step(
    pre: Seq<NamedDatabase>,
    post: Seq<NamedDatabase>,
    name: Seq<u8>,
    avail: Seq<u64>,
) -> bool {
    exists|d: NamedDatabase|
        post == pre.push(d) && #[trigger] d.name@ == name && d.db.applied@ == avail
}

impl ServerModel {
    pub fn new() -> (r: Self)
        ensures
            r.databases@.len() == 0,
    {
        ServerModel { databases: Vec::new() }
    }

    /// Whether a database of this name exists.
    pub fn has_db(&self, name: &[u8]) -> (r: bool)
        ensures
            r == spec_has_db(self.databases@, name@),
    {
        let mut j: usize = 0;
        while j < self.databases.len()
            invariant
                0 <= j <= self.databases@.len(),
                forall|t: int| 0 <= t < j ==> self.databases@[t].name@ != name@,
            decreases self.databases@.len() - j,
        {
            if crate::bytes_eq(self.databases[j].name.as_slice(), name) {
                return true;
            }
            j = j + 1;
        }
        false
    }

    /// Create a database under a caller-supplied fresh name and apply the
    /// full migration set to it. Fails exactly on a name collision, and then
    /// changes nothing: no partial state is left behind.
    pub fn provision_ephemeral(&mut self, name: Vec<u8>, avail: &Vec<u64>) -> (r: bool)
        requires
            sorted_strict(avail@),
        ensures
            r == !spec_has_db(old(self).databases@, name@),
            r ==> provision_step(old(self).databases@, final(self).databases@, name@, avail@),
            !r ==> final(self).databases@ == old(self).databases@,
    {
        if self.has_db(name.as_slice()) {
            return false;
        }
        let mut db = DatabaseModel::new();
        proof {
            assert(db.applied@ =~= Seq::<u64>::empty());
        }
        db.apply_migrations(avail);
        proof {
            lemma_plan_fresh(avail@);
            assert(db.applied@ =~= avail@);
        }
        let entry = NamedDatabase { name, db };
        let ghost ge = entry;
        self.databases.push(entry);
        proof {
            assert(ge.name@ == name@ && ge.db.applied@ == avail@);
            assert(self.databases@ == old(self).databases@.push(ge));
        }
        true
    }
}

proof fn lemma_db_state_snoc(s: Seq<NamedDatabase>, d: NamedDatabase, m: Seq<u8>)
    ensures
        spec_has_db(s, m) ==> spec_db_state(s.push(d), m) == spec_db_state(s, m),
        !spec_has_db(s, m) && d.name@ == m ==> spec_db_state(s.push(d), m) == Some(d.db.applied@),
        !spec_has_db(s, m) && d.name@ != m ==> spec_db_state(s.push(d), m) is None,
        spec_has_db(s.push(d), m) == (spec_has_db(s, m) || d.name@ == m),
    decreases s.len(),
{
    if s.len() == 0 {
        assert(s.push(d)[0] == d);
        if d.name@ == m {
            assert(spec_has_db(s.push(d), m));
        }
        assert(s.push(d).skip(1) =~= Seq::<NamedDatabase>::empty());
        assert(spec_db_state(Seq::<NamedDatabase>::empty(), m) is None);
    } else {
        assert(s.push(d)[0] == s[0]);
        assert(s.push(d).skip(1) =~= s.skip(1).push(d));
        lemma_db_state_snoc(s.skip(1), d, m);
        if s[0].name@ == m {
            assert(spec_has_db(s, m));
        }
        assert forall|j: int| 0 <= j < s.len() && s[j].name@ == m implies spec_has_db(s, m) by {}
        if spec_has_db(s, m) && s[0].name@ != m {
            let j = choose|j: int| 0 <= j < s.len() && s[j].name@ == m;
            assert(s.skip(1)[j - 1].name@ == m);
            assert(spec_has_db(s.skip(1), m));
        }
        if spec_has_db(s.skip(1), m) {
            let j = choose|j: int| 0 <= j < s.skip(1).len() && s.skip(1)[j].name@ == m;
            assert(s[j + 1].name@ == m);
        }
        if spec_has_db(s.push(d), m) {
            let j = choose|j: int| 0 <= j < s.push(d).len() && s.push(d)[j].name@ == m;
            if j < s.len() {
                assert(s[j].name@ == m);
            }
        }
    }
}

proof fn lemma_db_state_absent(s: Seq<NamedDatabase>, m: Seq<u8>)
    requires
        !spec_has_db(s, m),
    ensures
        spec_db_state(s, m) is None,
    decreases s.len(),
{
    if s.len() > 0 {
        assert(s[0].name@ != m);
        if spec_has_db(s.skip(1), m) {
            let j = choose|j: int| 0 <= j < s.skip(1).len() && s.skip(1)[j].name@ == m;
            assert(s[j + 1].name@ == m);
        }
        lemma_db_state_absent(s.skip(1), m);
    }
}

/// Isolation of ephemeral provisioning: two runs under distinct fresh names
/// never collide — the second name is still free after the first run — and
/// each leaves a fully migrated database of its own, while every other name
/// reads exactly as before.
pub proof fn lemma_provision_isolation(
    s0: Seq<NamedDatabase>,
    s1: Seq<NamedDatabase>,
    s2: Seq<NamedDatabase>,
    n1: Seq<u8>,
    n2: Seq<u8>,
    avail: Seq<u64>,
)
    requires
        n1 != n2,
        !spec_has_db(s0, n1),
        !spec_has_db(s0, n2),
        provision_step(s0, s1, n1, avail),
        provision_step(s1, s2, n2, avail),
    ensures
        !spec_has_db(s1, n2),
        spec_db_state(s2, n1) == Some(avail),
        spec_db_state(s2, n2) == Some(avail),
        forall|m: Seq<u8>| m != n1 && m != n2 ==> spec_db_state(s2, m) == spec_db_state(s0, m),
{
    let d1 = choose|d: NamedDatabase|
        s1 == s0.push(d) && #[trigger] d.name@ == n1 && d.db.applied@ == avail;
    let d2 = choose|d: NamedDatabase|
        s2 == s1.push(d) && #[trigger] d.name@ == n2 && d.db.applied@ == avail;
    lemma_db_state_snoc(s0, d1, n2);
    lemma_db_state_snoc(s0, d1, n1);
    lemma_db_state_snoc(s1, d2, n1);
    lemma_db_state_snoc(s1, d2, n2);
    assert(spec_db_state(s2, n1) == Some(avail));
    assert(spec_db_state(s2, n2) == Some(avail));
    assert forall|m: Seq<u8>| m != n1 && m != n2 implies spec_db_state(s2, m) == spec_db_state(
        s0,
        m,
    ) by {
        lemma_db_state_snoc(s0, d1, m);
        lemma_db_state_snoc(s1, d2, m);
        if !spec_has_db(s0, m) {
            lemma_db_state_absent(s0, m);
        }
    }
}

} // verus!
