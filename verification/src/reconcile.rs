//! The reconciler: one run that resolves the zone for a domain, lists
//! its records, and for each A or AAAA record discovers the current
//! public address and patches the record when its content differs.
//!
//! The run is a state machine driven from outside: each method decides
//! the next step and describes any request to perform; the driver
//! performs it and hands the outcome back. The first unrecoverable
//! failure ends the run.

use vstd::prelude::*;
use vstd::string::*;
use crate::api::{ApiFailure, ApiRequest, Client, DnsRecord, HttpMethod, Zone, url_join, url_joins};
use crate::discovery::{DiscoveryError, RecordFamily, TxtAnswer, discover_address, discovery_outcome};
use crate::logging::{Level, Logger, init};

verus! {

/// Why a run ends without reconciling every record.
#[derive(Debug)]
pub enum RunError {
    /// No zone matched the domain.
    ZoneNotFound,
    /// A provider call failed.
    Api(ApiFailure),
    /// Discovery yielded no usable address.
    Discovery(DiscoveryError),
    /// A request URL could not be formed from the identifiers at hand.
    RequestUrl,
}

/// Where a run stands.
#[derive(Clone, Copy, Debug, PartialEq, Eq, Structural)]
pub enum Phase {
    Start,
    ZonesRequested,
    RecordsRequested,
    Scanning,
    Discovering,
    Patching,
    Finished,
    Failed,
}

/// What the driver does next while records are scanned.
#[derive(Debug)]
pub enum NextStep {
    /// Discover the public address of this family, then report the
    /// answers through `on_discovered`.
    Discover(RecordFamily),
    /// Every record has been handled; the run is over.
    Finished,
}

/// The decision for one A or AAAA record.
#[derive(Debug)]
pub enum RecordStep {
    /// The stored content already equals the discovered address.
    NoUpdate,
    /// Perform this patch request, then report through `on_patched`.
    Patch(ApiRequest),
}

/// The address family a record type calls for: `A` and `AAAA` records
/// are acted on; every other type is left untouched.
pub open spec fn family_spec(t: Seq<char>) -> Option<RecordFamily> {
    if t == ("A")@ {
        Some(RecordFamily::V4)
    } else if t == ("AAAA")@ {
        Some(RecordFamily::V6)
    } else {
        None
    }
}

/// The address family a record type calls for.
pub fn family_of(t: &String) -> (r: Option<RecordFamily>)
    ensures
        r == family_spec(t@),
{
    proof {
        reveal_strlit("A");
        reveal_strlit("AAAA");
    }
    let a = String::from_str("A");
    let aaaa = String::from_str("AAAA");
    if t.eq(&a) {
        Some(RecordFamily::V4)
    } else if t.eq(&aaaa) {
        Some(RecordFamily::V6)
    } else {
        None
    }
}

/// Whether a record's stored content must be overwritten with the
/// rendered discovered text: exactly when the two differ as strings.
pub open spec fn needs_update(content: Seq<char>, rendered: Seq<char>) -> bool {
    content != rendered
}

/// The log line noting that a record needed no update.
pub open spec fn no_update_line(rtype: Seq<char>, content: Seq<char>) -> Seq<char> {
    ("No update required for ")@ + rtype + (" record (")@ + content + (")")@
}

/// The log line noting that a record was updated.
pub open spec fn updated_line(rtype: Seq<char>, old_c: Seq<char>, new_c: Seq<char>) -> Seq<char> {
    ("Updated ")@ + rtype + (" record from ")@ + old_c + (" to ")@ + new_c
}

// ---------------------------------------------------------------------
// The run's laws
// ---------------------------------------------------------------------

/// The patch decision for one record, given the rendered texts of the
/// discovered addresses of both families: a record of another type
/// never patches; an A or AAAA record patches exactly when its content
/// differs from its family's text.
pub open spec fn should_patch(
    rtype: Seq<char>,
    content: Seq<char>,
    v4: Seq<char>,
    v6: Seq<char>,
) -> bool {
    match family_spec(rtype) {
        Some(RecordFamily::V4) => needs_update(content, v4),
        Some(RecordFamily::V6) => needs_update(content, v6),
        None => false,
    }
}

/// The content a successful run leaves on one record: the rendered
/// text of its family's discovered address, or the stored content
/// untouched for records of other types.
pub open spec fn content_after_run(
    rtype: Seq<char>,
    content: Seq<char>,
    v4: Seq<char>,
    v6: Seq<char>,
) -> Seq<char> {
    match family_spec(rtype) {
        Some(RecordFamily::V4) => v4,
        Some(RecordFamily::V6) => v6,
        None => content,
    }
}

/// Idempotence: with the discovered addresses unchanged, a second run
/// over the contents a first successful run left behind compares every
/// record equal and patches nothing.
pub proof fn lemma_second_run_patches_nothing(
    rtype: Seq<char>,
    content: Seq<char>,
    v4: Seq<char>,
    v6: Seq<char>,
)
    ensures
        !should_patch(rtype, content_after_run(rtype, content, v4, v6), v4, v6),
{
}

/// The machine's per-record comparison agrees with `should_patch`: for
/// a record of either family, comparing its content against that
/// family's rendered text is exactly the patch decision.
pub proof fn lemma_comparison_is_patch_decision(
    rtype: Seq<char>,
    content: Seq<char>,
    v4: Seq<char>,
    v6: Seq<char>,
)
    ensures
        family_spec(rtype) == Some(RecordFamily::V4) ==> should_patch(rtype, content, v4, v6)
            == needs_update(content, v4),
        family_spec(rtype) == Some(RecordFamily::V6) ==> should_patch(rtype, content, v4, v6)
            == needs_update(content, v6),
{
}

/// The contents a successful run leaves on a zone's records, given the
/// records' types and stored contents and the rendered texts of the
/// discovered addresses.
pub open spec fn zone_contents_after_run(
    rtypes: Seq<Seq<char>>,
    contents: Seq<Seq<char>>,
    v4: Seq<char>,
    v6: Seq<char>,
) -> Seq<Seq<char>>
    recommends
        rtypes.len() == contents.len(),
{
    Seq::new(contents.len(), |i: int| content_after_run(rtypes[i], contents[i], v4, v6))
}

/// Idempotence over a whole zone: with the discovered addresses
/// unchanged, a second run over the contents a first successful run
/// left behind patches none of the records.
pub proof fn lemma_second_run_patches_no_record(
    rtypes: Seq<Seq<char>>,
    contents: Seq<Seq<char>>,
    v4: Seq<char>,
    v6: Seq<char>,
)
    requires
        rtypes.len() == contents.len(),
    ensures
        forall|i: int|
            0 <= i < rtypes.len() ==> !should_patch(
                #[trigger] rtypes[i],
                zone_contents_after_run(rtypes, contents, v4, v6)[i],
                v4,
                v6,
            ),
{
}

/// Selective action: a record whose type is neither `A` nor `AAAA` is
/// never patched, and a run leaves its content untouched.
pub proof fn lemma_other_types_untouched(
    rtype: Seq<char>,
    content: Seq<char>,
    v4: Seq<char>,
    v6: Seq<char>,
)
    requires
        family_spec(rtype) is None,
    ensures
        !should_patch(rtype, content, v4, v6),
        content_after_run(rtype, content, v4, v6) == content,
{
}

// ---------------------------------------------------------------------
// The state machine
// ---------------------------------------------------------------------

/// One reconciliation run over one domain.
pub struct Reconciler {
    pub domain: String,
    pub client: Client,
    pub phase: Phase,
    /// The selected zone, meaningful from `RecordsRequested` on.
    pub zone_id: String,
    /// The zone's records, meaningful from `Scanning` on.
    pub records: Vec<DnsRecord>,
    /// The record under examination, meaningful from `Scanning` on.
    pub idx: usize,
    /// The family under discovery, meaningful in `Discovering`.
    pub family: RecordFamily,
    /// The content being patched in, meaningful in `Patching`.
    pub new_content: String,
    pub log: Logger,
}

impl Reconciler {
    /// The state's internal consistency.
    pub open spec fn wf(&self) -> bool {
        &&& (self.phase == Phase::Scanning ==> self.idx <= self.records@.len())
        &&& (self.phase == Phase::Discovering ==> self.idx < self.records@.len() && family_spec(
            self.records@[self.idx as int].type_@,
        ) == Some(self.family))
        &&& (self.phase == Phase::Patching ==> self.idx < self.records@.len())
    }

    /// A fresh run for `domain`, authenticated by `token`, logging at
    /// `Info`.
    pub fn new(token: String, domain: String) -> (r: Reconciler)
        ensures
            r.client.token == token,
            r.domain == domain,
            r.phase == Phase::Start,
            r.log.lines@.len() == 0,
            r.log.max_level == Level::Info,
            r.wf(),
    {
        Reconciler {
            domain,
            client: Client::new(token),
            phase: Phase::Start,
            zone_id: String::new(),
            records: Vec::new(),
            idx: 0,
            family: RecordFamily::V4,
            new_content: String::new(),
            log: init(Level::Info),
        }
    }

    /// Begins the run: describes the request listing the zones whose
    /// name is exactly the domain.
    pub fn start(&mut self) -> (r: Result<ApiRequest, RunError>)
        requires
            old(self).phase == Phase::Start,
        ensures
            final(self).domain == old(self).domain,
            final(self).client == old(self).client,
            final(self).log == old(self).log,
            final(self).wf(),
            r is Ok <==> url_joins(("zones")@),
            r is Ok ==> final(self).phase == Phase::ZonesRequested && ({
                &&& r->Ok_0.method == HttpMethod::Get
                &&& r->Ok_0.url@ == url_join(("zones")@)
                &&& (r->Ok_0.query_name matches Some(q) && q@ == old(self).domain@)
                &&& r->Ok_0.body_content is None
                &&& r->Ok_0.bearer@ == old(self).client.token@
            }),
            r is Err ==> r->Err_0 is RequestUrl && final(self).phase == Phase::Failed,
    {
        let req = self.client.zones(self.domain.as_str());
        match req {
            Some(req) => {
                self.phase = Phase::ZonesRequested;
                Ok(req)
            },
            None => {
                self.phase = Phase::Failed;
                Err(RunError::RequestUrl)
            },
        }
    }

    /// Takes the zone list. The first zone in the returned order is
    /// selected, whatever its other attributes; an empty list is the
    /// distinct "zone not found" failure. On selection, describes the
    /// request listing the zone's records for the domain.
    pub fn on_zones(&mut self, outcome: Result<Vec<Zone>, ApiFailure>) -> (r: Result<
        ApiRequest,
        RunError,
    >)
        requires
            old(self).phase == Phase::ZonesRequested,
        ensures
            final(self).domain == old(self).domain,
            final(self).client == old(self).client,
            final(self).log == old(self).log,
            final(self).wf(),
            (outcome matches Err(f) ==> r == Err::<ApiRequest, RunError>(RunError::Api(f))
                && final(self).phase == Phase::Failed),
            (outcome matches Ok(zs) ==> (zs@.len() == 0 ==> r is Err && r->Err_0 is ZoneNotFound
                && final(self).phase == Phase::Failed)),
            (outcome matches Ok(zs) ==> (zs@.len() > 0 ==> ({
                let path = ("zones/")@ + zs@[0].id@ + ("/dns_records")@;
                &&& (r is Ok <==> url_joins(path))
                &&& (r is Ok ==> final(self).phase == Phase::RecordsRequested && final(self).zone_id@ == zs@[0].id@ && ({
                    &&& r->Ok_0.method == HttpMethod::Get
                    &&& r->Ok_0.url@ == url_join(path)
                    &&& (r->Ok_0.query_name matches Some(q) && q@ == old(self).domain@)
                    &&& r->Ok_0.body_content is None
                    &&& r->Ok_0.bearer@ == old(self).client.token@
                }))
                &&& (r is Err ==> r->Err_0 is RequestUrl && final(self).phase == Phase::Failed)
            }))),
    {
        match outcome {
            Err(f) => {
                self.phase = Phase::Failed;
                Err(RunError::Api(f))
            },
            Ok(mut zones) => {
                if zones.len() == 0 {
                    self.phase = Phase::Failed;
                    return Err(RunError::ZoneNotFound);
                }
                let zone = zones.remove(0);
                let req = self.client.dns_records(zone.id.as_str(), self.domain.as_str());
                match req {
                    Some(req) => {
                        self.zone_id = zone.id;
                        self.phase = Phase::RecordsRequested;
                        Ok(req)
                    },
                    None => {
                        self.phase = Phase::Failed;
                        Err(RunError::RequestUrl)
                    },
                }
            },
        }
    }

    /// Takes the record list. Zero records is a valid, already finished
    /// run, reached through the scan that follows.
    pub fn on_records(&mut self, outcome: Result<Vec<DnsRecord>, ApiFailure>) -> (r: Result<
        (),
        RunError,
    >)
        requires
            old(self).phase == Phase::RecordsRequested,
        ensures
            final(self).domain == old(self).domain,
            final(self).client == old(self).client,
            final(self).log == old(self).log,
            final(self).zone_id == old(self).zone_id,
            final(self).wf(),
            (outcome matches Err(f) ==> r == Err::<(), RunError>(RunError::Api(f)) && final(self).phase == Phase::Failed),
            (outcome matches Ok(recs) ==> r is Ok && final(self).phase == Phase::Scanning
                && final(self).records == recs && final(self).idx == 0),
    {
        match outcome {
            Err(f) => {
                self.phase = Phase::Failed;
                Err(RunError::Api(f))
            },
            Ok(recs) => {
                self.records = recs;
                self.idx = 0;
                self.phase = Phase::Scanning;
                Ok(())
            },
        }
    }

    /// Scans forward from the current record. Records whose type is
    /// neither `A` nor `AAAA` are skipped with no discovery and no
    /// patch; the first A or AAAA record asks the driver to discover
    /// that family's address. Past the last record the run is finished.
    pub fn next_step(&mut self) -> (r: NextStep)
        requires
            old(self).wf(),
            old(self).phase == Phase::Scanning,
        ensures
            final(self).domain == old(self).domain,
            final(self).client == old(self).client,
            final(self).log == old(self).log,
            final(self).zone_id == old(self).zone_id,
            final(self).records == old(self).records,
            final(self).wf(),
            (r matches NextStep::Discover(f) ==> ({
                &&& final(self).phase == Phase::Discovering
                &&& final(self).family == f
                &&& old(self).idx <= final(self).idx < old(self).records@.len()
                &&& family_spec(old(self).records@[final(self).idx as int].type_@) == Some(f)
                &&& (forall|j: int|
                    old(self).idx <= j < final(self).idx ==> family_spec(
                        #[trigger] old(self).records@[j].type_@,
                    ) is None)
            })),
            (r is Finished ==> final(self).phase == Phase::Finished && (forall|j: int|
                old(self).idx <= j < old(self).records@.len() ==> family_spec(
                    #[trigger] old(self).records@[j].type_@,
                ) is None)),
    {
        while self.idx < self.records.len()
            invariant
                self.domain == old(self).domain,
                self.client == old(self).client,
                self.log == old(self).log,
                self.zone_id == old(self).zone_id,
                self.records == old(self).records,
                self.phase == Phase::Scanning,
                self.family == old(self).family,
                self.new_content == old(self).new_content,
                old(self).idx <= self.idx <= self.records@.len(),
                forall|j: int|
                    old(self).idx <= j < self.idx ==> family_spec(
                        #[trigger] self.records@[j].type_@,
                    ) is None,
            decreases self.records@.len() - self.idx,
        {
            let fam = family_of(&self.records[self.idx].type_);
            match fam {
                Some(f) => {
                    self.family = f;
                    self.phase = Phase::Discovering;
                    return NextStep::Discover(f);
                },
                None => {
                    self.idx = self.idx + 1;
                },
            }
        }
        self.phase = Phase::Finished;
        NextStep::Finished
    }

    /// Takes the discovery answers for the current record's family.
    /// A decodable address is rendered canonically and compared with
    /// the stored content: equal content logs that no update was
    /// needed and moves on; different content describes the patch
    /// overwriting it. Any discovery failure ends the run.
    pub fn on_discovered(&mut self, answers: &Vec<TxtAnswer>) -> (r: Result<RecordStep, RunError>)
        requires
            old(self).wf(),
            old(self).phase == Phase::Discovering,
        ensures
            final(self).domain == old(self).domain,
            final(self).client == old(self).client,
            final(self).zone_id == old(self).zone_id,
            final(self).records == old(self).records,
            final(self).wf(),
            (discovery_outcome(old(self).family, answers@) matches Err(e) ==> r == Err::<
                RecordStep,
                RunError,
            >(RunError::Discovery(e)) && final(self).phase == Phase::Failed && final(self).log
                == old(self).log),
            (discovery_outcome(old(self).family, answers@) matches Ok(text) ==> ({
                let rec = old(self).records@[old(self).idx as int];
                &&& (!needs_update(rec.content@, text) ==> ({
                    &&& r matches Ok(s) && s is NoUpdate
                    &&& final(self).phase == Phase::Scanning
                    &&& final(self).idx == old(self).idx + 1
                    &&& final(self).log.max_level == old(self).log.max_level
                    &&& (old(self).log.enabled_spec(Level::Info) ==> final(self).log.lines@.len()
                        == old(self).log.lines@.len() + 1 && final(self).log.lines@.last()@
                        == no_update_line(rec.type_@, rec.content@) && final(self).log.lines@.drop_last() == old(self).log.lines@)
                    &&& (!old(self).log.enabled_spec(Level::Info) ==> final(self).log == old(self).log)
                }))
                &&& (needs_update(rec.content@, text) ==> ({
                    let path = ("zones/")@ + old(self).zone_id@ + ("/dns_records/")@ + rec.id@;
                    &&& (r is Ok <==> url_joins(path))
                    &&& (r is Ok ==> ({
                        &&& r matches Ok(s) && s matches RecordStep::Patch(req) && ({
                            &&& req.method == HttpMethod::Patch
                            &&& req.url@ == url_join(path)
                            &&& req.query_name is None
                            &&& (req.body_content matches Some(c) && c@ == text)
                            &&& req.bearer@ == old(self).client.token@
                        })
                        &&& final(self).phase == Phase::Patching
                        &&& final(self).idx == old(self).idx
                        &&& final(self).new_content@ == text
                        &&& final(self).log == old(self).log
                    }))
                    &&& (r is Err ==> r->Err_0 is RequestUrl && final(self).phase == Phase::Failed)
                }))
            })),
    {
        let fam = self.family;
        match discover_address(fam, answers) {
            Err(e) => {
                self.phase = Phase::Failed;
                Err(RunError::Discovery(e))
            },
            Ok(address) => {
                let rendered = crate::addr::format_address(&address);
                if self.records[self.idx].content.eq(&rendered) {
                    proof {
                        reveal_strlit("No update required for ");
                        reveal_strlit(" record (");
                        reveal_strlit(")");
                    }
                    let mut line = String::from_str("No update required for ");
                    line.append(self.records[self.idx].type_.as_str());
                    line.append(" record (");
                    line.append(self.records[self.idx].content.as_str());
                    line.append(")");
                    let n = self.records.len();
                    proof {
                        assert(self.idx < n);
                    }
                    let ghost lines0 = self.log.lines@;
                    let ghost was_enabled = self.log.enabled_spec(Level::Info);
                    self.log.log(Level::Info, line);
                    proof {
                        if was_enabled {
                            assert(self.log.lines@ == lines0.push(line));
                            assert(self.log.lines@.drop_last() =~= lines0);
                        }
                    }
                    self.idx = self.idx + 1;
                    self.phase = Phase::Scanning;
                    Ok(RecordStep::NoUpdate)
                } else {
                    let req = self.client.patch_dns_record(
                        self.zone_id.as_str(),
                        self.records[self.idx].id.as_str(),
                        rendered.as_str(),
                    );
                    match req {
                        Some(req) => {
                            self.new_content = rendered;
                            self.phase = Phase::Patching;
                            Ok(RecordStep::Patch(req))
                        },
                        None => {
                            self.phase = Phase::Failed;
                            Err(RunError::RequestUrl)
                        },
                    }
                }
            },
        }
    }

    /// Takes the patch outcome for the current record: success logs the
    /// old and new content and moves on; failure ends the run.
    pub fn on_patched(&mut self, outcome: Result<DnsRecord, ApiFailure>) -> (r: Result<
        (),
        RunError,
    >)
        requires
            old(self).wf(),
            old(self).phase == Phase::Patching,
        ensures
            final(self).domain == old(self).domain,
            final(self).client == old(self).client,
            final(self).zone_id == old(self).zone_id,
            final(self).records == old(self).records,
            final(self).wf(),
            (outcome matches Err(f) ==> r == Err::<(), RunError>(RunError::Api(f)) && final(self).phase == Phase::Failed && final(self).log == old(self).log),
            (outcome is Ok ==> ({
                let rec = old(self).records@[old(self).idx as int];
                &&& r is Ok
                &&& final(self).phase == Phase::Scanning
                &&& final(self).idx == old(self).idx + 1
                &&& final(self).log.max_level == old(self).log.max_level
                &&& (old(self).log.enabled_spec(Level::Info) ==> final(self).log.lines@.len()
                    == old(self).log.lines@.len() + 1 && final(self).log.lines@.last()@
                    == updated_line(rec.type_@, rec.content@, old(self).new_content@) && final(self).log.lines@.drop_last() == old(self).log.lines@)
                &&& (!old(self).log.enabled_spec(Level::Info) ==> final(self).log == old(self).log)
            })),
    {
        match outcome {
            Err(f) => {
                self.phase = Phase::Failed;
                Err(RunError::Api(f))
            },
            Ok(_updated) => {
                proof {
                    reveal_strlit("Updated ");
                    reveal_strlit(" record from ");
                    reveal_strlit(" to ");
                }
                let mut line = String::from_str("Updated ");
                line.append(self.records[self.idx].type_.as_str());
                line.append(" record from ");
                line.append(self.records[self.idx].content.as_str());
                line.append(" to ");
                line.append(self.new_content.as_str());
                let n = self.records.len();
                proof {
                    assert(self.idx < n);
                }
                let ghost lines0 = self.log.lines@;
                let ghost was_enabled = self.log.enabled_spec(Level::Info);
                self.log.log(Level::Info, line);
                proof {
                    if was_enabled {
                        assert(self.log.lines@ == lines0.push(line));
                        assert(self.log.lines@.drop_last() =~= lines0);
                    }
                }
                self.idx = self.idx + 1;
                self.phase = Phase::Scanning;
                Ok(())
            },
        }
    }
}

} // verus!
