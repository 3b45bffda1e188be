//! Talons, the plugins agents use: the registry of installed talons, the
//! signature every installation must carry, the lifecycle status of each,
//! and which agents may use which talon.
use vstd::prelude::*;

use crate::signature::{expected_signature, signature_text, verify_signature};
use crate::text::{str_eq, texts, to_string};

verus! {

#[derive(Debug)]
pub enum TalonError {
    InvalidSignature(String),
    NotFound(String),
    AlreadyInstalled(String),
    Lifecycle(String),
    Panicked(String),
}

#[derive(Debug, Clone)]
pub struct Capability {
    pub name: String,
    pub description: String,
}

#[derive(Debug, Clone, Default)]
pub struct TalonConfig {
    pub settings: std::collections::HashMap<String, String>,
}

#[derive(Debug, Clone, PartialEq)]
pub enum TalonStatus {
    Loaded,
    Unloaded,
    Failed(String),
}

#[derive(Debug, Clone)]
pub struct TalonRecord {
    pub name: String,
    pub version: String,
    pub status: TalonStatus,
    pub capabilities: Vec<Capability>,
    pub signature: String,
}

/// A plugin. Users implement it; the registry drives its lifecycle.
pub trait Talon {
    fn name(&self) -> &str;

    fn version(&self) -> &str;

    fn load(&mut self) -> Result<(), TalonError>;

    fn unload(&mut self) -> Result<(), TalonError>;

    fn configure(&mut self, config: TalonConfig) -> Result<(), TalonError>;

    fn capabilities(&self) -> Vec<Capability>;
}

/// How running a talon's `load` or `unload` ended.
#[derive(Debug, Clone, PartialEq)]
pub enum TalonRun {
    Succeeded,
    Failed(String),
    Panicked,
}

/// The signature a talon named `name` at `version` must carry.
pub fn make_signature(name: &str, version: &str) -> (s: String)
    ensures
        s@ == signature_text(name@, version@),
        s@.len() == 64,
{
    expected_signature(name, version)
}

pub open spec fn record_names(rs: Seq<TalonRecord>) -> Seq<Seq<char>> {
    rs.map_values(|r: TalonRecord| r.name@)
}

/// The installed talons, each under a name of its own.
pub struct TalonRegistry {
    records: Vec<TalonRecord>,
    instance_names: Vec<String>,
}

fn find_record(rs: &Vec<TalonRecord>, name: &str) -> (r: Option<usize>)
    ensures
        r matches Some(i) ==> i < rs@.len() && rs@[i as int].name@ == name@,
        r is None ==> !record_names(rs@).contains(name@),
{
    let mut i: usize = 0;
    while i < rs.len()
        invariant
            i <= rs@.len(),
            forall|j: int| 0 <= j < i ==> #[trigger] rs@[j].name@ != name@,
        decreases rs.len() - i,
    {
        if str_eq(rs[i].name.as_str(), name) {
            return Some(i);
        }
        i = i + 1;
    }
    proof {
        if record_names(rs@).contains(name@) {
            let j = choose|j: int| 0 <= j < record_names(rs@).len() && record_names(rs@)[j] == name@;
            assert(rs@[j].name@ == name@);
        }
    }
    None
}

/// Each capability's name and description, in order.
pub open spec fn cap_views(cs: Seq<Capability>) -> Seq<(Seq<char>, Seq<char>)> {
    cs.map_values(|c: Capability| (c.name@, c.description@))
}

proof fn lemma_cap_views_eq(a: Seq<Capability>, b: Seq<Capability>)
    requires
        a.len() == b.len(),
        forall|i: int| 0 <= i < b.len() ==> #[trigger] a[i].name@ == b[i].name@ && a[i].description@ == b[i].description@,
    ensures
        cap_views(a) == cap_views(b),
{
    assert(cap_views(a) =~= cap_views(b));
}

fn clone_caps(cs: &Vec<Capability>) -> (r: Vec<Capability>)
    ensures
        r@.len() == cs@.len(),
        cap_views(r@) == cap_views(cs@),
        forall|i: int| 0 <= i < cs@.len() ==> #[trigger] r@[i].name@ == cs@[i].name@ && r@[i].description@
            == cs@[i].description@,
{
    let mut out: Vec<Capability> = Vec::new();
    let mut i: usize = 0;
    while i < cs.len()
        invariant
            i <= cs@.len(),
            out@.len() == i,
            forall|j: int| 0 <= j < i ==> #[trigger] out@[j].name@ == cs@[j].name@ && out@[j].description@
                == cs@[j].description@,
        decreases cs.len() - i,
    {
        out.push(Capability { name: to_string(cs[i].name.as_str()), description: to_string(cs[i].description.as_str()) });
        i = i + 1;
    }
    proof {
        lemma_cap_views_eq(out@, cs@);
    }
    out
}

impl TalonRegistry {
    #[verifier::type_invariant]
    spec fn names_distinct(&self) -> bool {
        record_names(self.records@).no_duplicates()
    }

    /// The installed talons, in installation order.
    pub closed spec fn records_view(&self) -> Seq<TalonRecord> {
        self.records@
    }

    /// The names of the talons with a running instance.
    pub closed spec fn instances_view(&self) -> Set<Seq<char>> {
        crate::text::texts(self.instance_names@).to_set()
    }

    pub fn new() -> (r: Self)
        ensures
            r.records_view().len() == 0,
            r.instances_view().is_empty(),
    {
        TalonRegistry { records: Vec::new(), instance_names: Vec::new() }
    }

    /// Installs a talon. The signature must be that of `name` at `version`,
    /// and no talon of that name may be installed already.
    pub fn install(&mut self, name: &str, version: &str, signature: &str, capabilities: Vec<Capability>) -> (r: Result<(), TalonError>)
        ensures
            signature@ != signature_text(name@, version@) ==> (r matches Err(TalonError::InvalidSignature(n)) && n@ == name@),
            signature@ == signature_text(name@, version@) && record_names(old(self).records_view()).contains(name@)
                ==> (r matches Err(TalonError::AlreadyInstalled(n)) && n@ == name@),
            r is Err ==> final(self).records_view() == old(self).records_view(),
            r is Ok ==> signature@ == signature_text(name@, version@) && !record_names(old(self).records_view()).contains(name@)
                && final(self).records_view().len() == old(self).records_view().len() + 1
                && final(self).records_view().drop_last() == old(self).records_view()
                && final(self).records_view().last().name@ == name@
                && final(self).records_view().last().version@ == version@
                && final(self).records_view().last().status == TalonStatus::Unloaded
                && final(self).records_view().last().capabilities == capabilities
                && final(self).records_view().last().signature@ == signature@,
    {
        proof {
            use_type_invariant(&*self);
        }
        if !verify_signature(name, version, signature) {
            return Err(TalonError::InvalidSignature(to_string(name)));
        }
        match find_record(&self.records, name) {
            Some(_) => {
                proof {
                    let i = choose|i: int| 0 <= i < self.records@.len() && self.records@[i].name@ == name@;
                }
                return Err(TalonError::AlreadyInstalled(to_string(name)));
            },
            None => {},
        }
        let rec = TalonRecord {
            name: to_string(name),
            version: to_string(version),
            status: TalonStatus::Unloaded,
            capabilities,
            signature: to_string(signature),
        };
        let ghost before = self.records@;
        let mut recs: Vec<TalonRecord> = Vec::new();
        std::mem::swap(&mut recs, &mut self.records);
        recs.push(rec);
        proof {
            assert(record_names(recs@) =~= record_names(before).push(name@));
            assert(recs@.drop_last() =~= before);
        }
        self.records = recs;
        Ok(())
    }

    /// Records how loading the talon `name` went: `None` when it has no
    /// running instance (it is then marked loaded), else the instance's run.
    pub fn load(&mut self, name: &str, run: Option<TalonRun>) -> (r: Result<(), TalonError>)
        ensures
            !record_names(old(self).records_view()).contains(name@) ==> (r matches Err(TalonError::NotFound(n))
                && n@ == name@) && final(self).records_view() == old(self).records_view(),
            record_names(old(self).records_view()).contains(name@) ==> exists|i: int|
                0 <= i < old(self).records_view().len() && old(self).records_view()[i].name@ == name@
                && lifecycle_step(old(self).records_view(), final(self).records_view(), i, run, true, r),
    {
        self.step(name, run, true)
    }

    /// Records how unloading the talon `name` went, as `load` does; success
    /// marks it unloaded.
    pub fn unload(&mut self, name: &str, run: Option<TalonRun>) -> (r: Result<(), TalonError>)
        ensures
            !record_names(old(self).records_view()).contains(name@) ==> (r matches Err(TalonError::NotFound(n))
                && n@ == name@) && final(self).records_view() == old(self).records_view(),
            record_names(old(self).records_view()).contains(name@) ==> exists|i: int|
                0 <= i < old(self).records_view().len() && old(self).records_view()[i].name@ == name@
                && lifecycle_step(old(self).records_view(), final(self).records_view(), i, run, false, r),
    {
        self.step(name, run, false)
    }

    fn step(&mut self, name: &str, run: Option<TalonRun>, loading: bool) -> (r: Result<(), TalonError>)
        ensures
            !record_names(old(self).records_view()).contains(name@) ==> (r matches Err(TalonError::NotFound(n))
                && n@ == name@) && final(self).records_view() == old(self).records_view(),
            record_names(old(self).records_view()).contains(name@) ==> exists|i: int|
                0 <= i < old(self).records_view().len() && old(self).records_view()[i].name@ == name@
                && lifecycle_step(old(self).records_view(), final(self).records_view(), i, run, loading, r),
    {
        proof {
            use_type_invariant(&*self);
        }
        let i = match find_record(&self.records, name) {
            Some(i) => i,
            None => return Err(TalonError::NotFound(to_string(name))),
        };
        assert(record_names(self.records@)[i as int] == name@);
        let (status, result) = match run {
            None | Some(TalonRun::Succeeded) => (
                if loading { TalonStatus::Loaded } else { TalonStatus::Unloaded },
                Ok(()),
            ),
            Some(TalonRun::Failed(msg)) => (TalonStatus::Failed(to_string(msg.as_str())), Err(TalonError::Lifecycle(msg))),
            Some(TalonRun::Panicked) => {
                let msg = if loading {
                    to_string("talon panicked during load")
                } else {
                    to_string("talon panicked during unload")
                };
                (TalonStatus::Failed(to_string(msg.as_str())), Err(TalonError::Panicked(msg)))
            },
        };
        let ghost before = self.records@;
        let mut recs: Vec<TalonRecord> = Vec::new();
        std::mem::swap(&mut recs, &mut self.records);
        let mut rec = recs.remove(i);
        rec.status = status;
        recs.insert(i, rec);
        proof {
            assert(recs@ =~= before.update(i as int, recs@[i as int]));
            assert(record_names(recs@) =~= record_names(before));
            assert(lifecycle_step(before, recs@, i as int, run, loading, result));
        }
        self.records = recs;
        assert(old(self).records_view()[i as int].name@ == name@ && lifecycle_step(
            old(self).records_view(),
            self.records_view(),
            i as int,
            run,
            loading,
            result,
        ));
        result
    }

    /// Notes that the talon `name` has a running instance, whose `load` and
    /// `unload` the program runs (catching any panic) and reports back.
    pub fn register_instance(&mut self, name: &str) -> (r: Result<(), TalonError>)
        ensures
            r is Ok,
            final(self).instances_view() == old(self).instances_view().insert(name@),
            final(self).records_view() == old(self).records_view(),
    {
        proof {
            use_type_invariant(&*self);
        }
        let mut i: usize = 0;
        while i < self.instance_names.len()
            invariant
                i <= self.instance_names@.len(),
                forall|j: int| 0 <= j < i ==> #[trigger] self.instance_names@[j]@ != name@,
            decreases self.instance_names.len() - i,
        {
            if str_eq(self.instance_names[i].as_str(), name) {
                proof {
                    assert(crate::text::texts(self.instance_names@)[i as int] == name@);
                    assert(self.instances_view().insert(name@) =~= self.instances_view());
                }
                return Ok(());
            }
            i = i + 1;
        }
        let ghost before = crate::text::texts(self.instance_names@);
        let mut names: Vec<String> = Vec::new();
        std::mem::swap(&mut names, &mut self.instance_names);
        names.push(to_string(name));
        proof {
            assert(crate::text::texts(names@) =~= before.push(name@));
            before.lemma_push_to_set_commute(name@);
        }
        self.instance_names = names;
        Ok(())
    }

    /// Whether the talon `name` has a running instance.
    pub fn has_instance(&self, name: &str) -> (b: bool)
        ensures
            b == self.instances_view().contains(name@),
    {
        let mut i: usize = 0;
        while i < self.instance_names.len()
            invariant
                i <= self.instance_names@.len(),
                forall|j: int| 0 <= j < i ==> #[trigger] self.instance_names@[j]@ != name@,
            decreases self.instance_names.len() - i,
        {
            if str_eq(self.instance_names[i].as_str(), name) {
                assert(crate::text::texts(self.instance_names@)[i as int] == name@);
                return true;
            }
            i = i + 1;
        }
        proof {
            if crate::text::texts(self.instance_names@).to_set().contains(name@) {
                let t = crate::text::texts(self.instance_names@);
                assert(t.contains(name@));
                let j = choose|j: int| 0 <= j < t.len() && t[j] == name@;
                assert(self.instance_names@[j]@ == name@);
            }
        }
        false
    }

    /// Every installed talon.
    pub fn list(&self) -> (r: Vec<TalonRecord>)
        ensures
            r@.len() == self.records_view().len(),
            forall|i: int| 0 <= i < r@.len() ==> #[trigger] r@[i].name@ == self.records_view()[i].name@
                && r@[i].version@ == self.records_view()[i].version@ && same_status(r@[i].status, self.records_view()[i].status),
    {
        let mut out: Vec<TalonRecord> = Vec::new();
        let mut i: usize = 0;
        while i < self.records.len()
            invariant
                i <= self.records@.len(),
                out@.len() == i,
                forall|j: int| 0 <= j < i ==> #[trigger] out@[j].name@ == self.records@[j].name@
                    && out@[j].version@ == self.records@[j].version@ && same_status(out@[j].status, self.records@[j].status),
            decreases self.records.len() - i,
        {
            let r = &self.records[i];
            let status = match &r.status {
                TalonStatus::Loaded => TalonStatus::Loaded,
                TalonStatus::Unloaded => TalonStatus::Unloaded,
                TalonStatus::Failed(m) => TalonStatus::Failed(to_string(m.as_str())),
            };
            out.push(TalonRecord {
                name: to_string(r.name.as_str()),
                version: to_string(r.version.as_str()),
                status,
                capabilities: clone_caps(&r.capabilities),
                signature: to_string(r.signature.as_str()),
            });
            i = i + 1;
        }
        out
    }

    /// The capabilities of the installed talon `name`.
    pub fn get_capabilities(&self, name: &str) -> (r: Option<Vec<Capability>>)
        ensures
            !record_names(self.records_view()).contains(name@) ==> r is None,
            r matches Some(cs) ==> exists|i: int| 0 <= i < self.records_view().len() && self.records_view()[i].name@
                == name@ && cap_views(cs@) == cap_views(self.records_view()[i].capabilities@),
            record_names(self.records_view()).contains(name@) ==> r is Some,
            record_names(self.records_view()).no_duplicates(),
    {
        proof {
            use_type_invariant(self);
        }
        match find_record(&self.records, name) {
            Some(i) => {
                proof {
                    assert(record_names(self.records@)[i as int] == name@);
                }
                Some(clone_caps(&self.records[i].capabilities))
            },
            None => None,
        }
    }

    /// Whether an agent whose manifest declares `agent_manifest_talons` may
    /// use the talon `talon_name`.
    pub fn is_authorized(agent_manifest_talons: &[String], talon_name: &str) -> (b: bool)
        ensures
            b == texts(agent_manifest_talons@).contains(talon_name@),
    {
        let mut i: usize = 0;
        while i < agent_manifest_talons.len()
            invariant
                i <= agent_manifest_talons@.len(),
                forall|j: int| 0 <= j < i ==> agent_manifest_talons@[j]@ != talon_name@,
            decreases agent_manifest_talons.len() - i,
        {
            if str_eq(agent_manifest_talons[i].as_str(), talon_name) {
                assert(texts(agent_manifest_talons@)[i as int] == talon_name@);
                return true;
            }
            i = i + 1;
        }
        proof {
            if texts(agent_manifest_talons@).contains(talon_name@) {
                let j = choose|j: int| 0 <= j < agent_manifest_talons@.len() && texts(agent_manifest_talons@)[j] == talon_name@;
                assert(agent_manifest_talons@[j]@ == talon_name@);
            }
        }
        false
    }
}

/// Two statuses say the same.
pub open spec fn same_status(a: TalonStatus, b: TalonStatus) -> bool {
    match (a, b) {
        (TalonStatus::Loaded, TalonStatus::Loaded) => true,
        (TalonStatus::Unloaded, TalonStatus::Unloaded) => true,
        (TalonStatus::Failed(x), TalonStatus::Failed(y)) => x@ == y@,
        _ => false,
    }
}

/// What one lifecycle step does to record `i`: a run that succeeds (or no
/// instance) sets it loaded or unloaded; a failing run marks it failed
/// with the error's message; a panic marks it failed.
pub open spec fn lifecycle_step(
    before: Seq<TalonRecord>,
    after: Seq<TalonRecord>,
    i: int,
    run: Option<TalonRun>,
    loading: bool,
    r: Result<(), TalonError>,
) -> bool {
    &&& after.len() == before.len()
    &&& forall|j: int| 0 <= j < before.len() && j != i ==> after[j] == before[j]
    &&& after[i].name == before[i].name
    &&& after[i].version == before[i].version
    &&& after[i].capabilities == before[i].capabilities
    &&& after[i].signature == before[i].signature
    &&& match run {
        None | Some(TalonRun::Succeeded) => r is Ok && after[i].status == (if loading {
            TalonStatus::Loaded
        } else {
            TalonStatus::Unloaded
        }),
        Some(TalonRun::Failed(m)) => (r matches Err(TalonError::Lifecycle(e)) && e == m) && (after[i].status matches TalonStatus::Failed(f) && f@ == m@),
        Some(TalonRun::Panicked) => (r matches Err(TalonError::Panicked(e)) && e@ == (if loading {
            "talon panicked during load"@
        } else {
            "talon panicked during unload"@
        })) && (after[i].status matches TalonStatus::Failed(f) && f@ == (if loading {
            "talon panicked during load"@
        } else {
            "talon panicked during unload"@
        })),
    }
}

/// A lifecycle step leaves the talon in the state its result says: loaded
/// (or unloaded, when unloading) exactly when the step succeeded, failed
/// exactly when it did not; no other talon changes.
pub proof fn lifecycle_status_follows_result(
    before: Seq<TalonRecord>,
    after: Seq<TalonRecord>,
    i: int,
    run: Option<TalonRun>,
    loading: bool,
    r: Result<(), TalonError>,
)
    requires
        0 <= i < before.len(),
        lifecycle_step(before, after, i, run, loading, r),
    ensures
        r is Ok <==> after[i].status == (if loading { TalonStatus::Loaded } else { TalonStatus::Unloaded }),
        r is Err <==> after[i].status is Failed,
        forall|j: int| 0 <= j < before.len() && j != i ==> #[trigger] after[j] == before[j],
{
}


fn quoted(prefix: &str, m: &String) -> (s: String)
    ensures
        s@ == prefix@ + m@ + "'"@,
{
    let mut s = crate::error::prefixed(prefix, m);
    crate::text::push_str(&mut s, "'");
    s
}

impl TalonError {
    /// The error's message, as the program prints it.
    pub fn message(&self) -> (s: String)
        ensures
            s@ == match *self {
                TalonError::InvalidSignature(m) => "signature verification failed for '"@ + m@ + "'"@,
                TalonError::NotFound(m) => "talon not found: '"@ + m@ + "'"@,
                TalonError::AlreadyInstalled(m) => "talon already installed: '"@ + m@ + "'"@,
                TalonError::Lifecycle(m) => "talon lifecycle error: "@ + m@,
                TalonError::Panicked(m) => "talon panicked: "@ + m@,
            },
    {
        match self {
            TalonError::InvalidSignature(m) => quoted("signature verification failed for '", m),
            TalonError::NotFound(m) => quoted("talon not found: '", m),
            TalonError::AlreadyInstalled(m) => quoted("talon already installed: '", m),
            TalonError::Lifecycle(m) => crate::error::prefixed("talon lifecycle error: ", m),
            TalonError::Panicked(m) => crate::error::prefixed("talon panicked: ", m),
        }
    }
}

} // verus!
