//! The combiner: a keyed registry of pending queries. Each entry owns the
//! result channel that scanner uploads feed; the merge plan's stream drains
//! it. An entry completes when exactly the expected number of uploads ended
//! cleanly, and fails when a FAIL action arrives — never both.

use vstd::prelude::*;

use crate::error::BuzzError;
use crate::models::{spec_action_type, ActionType, Fail, RecordBatch};
use crate::schema::Schema;

verus! {

/// The state of one query's output stream.
pub enum QueryOutput {
    /// Still waiting on uploads; the stream blocks.
    Open,
    /// All expected uploads ended cleanly; the stream completes.
    Done,
    /// A FAIL arrived with this reason; the stream surfaces it.
    Failed(String),
}

/// One pending query of the registry.
pub struct QueryEntry {
    pub query_id: String,
    pub schema: Schema,
    /// How many scanner uploads the query expects: one per scan plan.
    pub expected: usize,
    /// How many uploads ended cleanly so far.
    pub finished: usize,
    /// The result channel: batches delivered and not yet drained.
    pub batches: Vec<RecordBatch>,
    pub output: QueryOutput,
}

impl QueryEntry {
    /// The entry's invariant, which is the completion law of the combiner:
    /// the output stream is `Done` exactly when every expected upload
    /// finished cleanly and no FAIL arrived — never both, never neither.
    pub open spec fn wf(self) -> bool {
        &&& self.finished <= self.expected
        &&& (self.output matches QueryOutput::Failed(_)) || ((self.output matches
            QueryOutput::Done) <==> self.finished == self.expected)
    }
}

/// Which registry entry carries `qid`.
pub open spec fn entry_index(s: Seq<QueryEntry>, qid: Seq<char>) -> int
    decreases s.len(),
{
    if s.len() == 0 {
        -1
    } else if s.last().query_id@ == qid {
        s.len() - 1
    } else {
        entry_index(s.drop_last(), qid)
    }
}

/// Whether the registry holds an entry for `qid`.
pub open spec fn has_entry(s: Seq<QueryEntry>, qid: Seq<char>) -> bool {
    entry_index(s, qid) >= 0
}

/// The found index is in range and names the query.
proof fn lemma_entry_index(s: Seq<QueryEntry>, qid: Seq<char>)
    ensures
        has_entry(s, qid) ==> 0 <= entry_index(s, qid) < s.len() && s[entry_index(s, qid)].query_id@
            == qid,
        !has_entry(s, qid) ==> forall|i: int| 0 <= i < s.len() ==> (#[trigger] s[i]).query_id@
            != qid,
    decreases s.len(),
{
    if s.len() > 0 {
        lemma_entry_index(s.drop_last(), qid);
        if s.last().query_id@ != qid {
            assert forall|i: int| 0 <= i < s.len() - 1 implies s.drop_last()[i] == s[i] by {}
        }
    }
}

/// How one FAIL for `qid` with `reason` rewrites the registry: the open
/// entry of that query is poisoned; everything else stands.
pub open spec fn fail_rel(
    s0: Seq<QueryEntry>,
    s1: Seq<QueryEntry>,
    qid: Seq<char>,
    reason: Seq<char>,
) -> bool {
    &&& s1.len() == s0.len()
    &&& forall|i: int|
        0 <= i < s0.len() ==> if s0[i].query_id@ == qid && (s0[i].output matches
            QueryOutput::Open) {
            (#[trigger] s1[i]).query_id == s0[i].query_id && s1[i].schema == s0[i].schema
                && s1[i].expected == s0[i].expected && s1[i].finished == s0[i].finished
                && s1[i].batches == s0[i].batches && (s1[i].output matches QueryOutput::Failed(m)
                && m@ == reason)
        } else {
            s1[i] == s0[i]
        }
}

/// The combiner's registry of pending queries, keyed by query id.
pub struct HCombService {
    pub queries: Vec<QueryEntry>,
}

impl HCombService {
    /// The registry's invariant: every entry is well formed and no query id
    /// appears twice.
    pub open spec fn wf(self) -> bool {
        &&& forall|i: int| 0 <= i < self.queries@.len() ==> (#[trigger] self.queries@[i]).wf()
        &&& forall|i: int, j: int|
            0 <= i < j < self.queries@.len() ==> (#[trigger] self.queries@[i]).query_id@ != (
            #[trigger] self.queries@[j]).query_id@
    }

    /// An empty registry.
    pub fn new() -> (r: Self)
        ensures
            r.wf(),
            r.queries@.len() == 0,
    {
        HCombService { queries: Vec::new() }
    }

    /// Finds the entry of `qid`.
    fn find(&self, qid: &String) -> (r: Option<usize>)
        ensures
            match r {
                Some(i) => has_entry(self.queries@, qid@) && i == entry_index(self.queries@, qid@),
                None => !has_entry(self.queries@, qid@),
            },
    {
        proof {
            lemma_entry_index(self.queries@, qid@);
        }
        let mut i: usize = self.queries.len();
        proof {
            assert(self.queries@.take(i as int) =~= self.queries@);
        }
        while i > 0
            invariant
                0 <= i <= self.queries.len(),
                entry_index(self.queries@, qid@) == entry_index(
                    self.queries@.take(i as int),
                    qid@,
                ),
            decreases i,
        {
            i -= 1;
            if self.queries[i].query_id == *qid {
                proof {
                    assert(self.queries@.take(i + 1).last() == self.queries@[i as int]);
                }
                return Some(i);
            }
            proof {
                assert(self.queries@.take(i + 1).last() == self.queries@[i as int]);
                assert(self.queries@.take(i + 1).drop_last() =~= self.queries@.take(i as int));
            }
        }
        proof {
            assert(self.queries@.take(0) =~= Seq::<QueryEntry>::empty());
        }
        None
    }

    /// Registers a query on its first `execute_query`: an entry expecting
    /// `expected_partitions` uploads, with an empty channel. A second
    /// registration of the same id is an internal error and changes nothing.
    /// A query expecting no uploads completes at once.
    pub fn execute_query(
        &mut self,
        query_id: String,
        expected_partitions: usize,
        schema: Schema,
    ) -> (r: Result<(), BuzzError>)
        requires
            old(self).wf(),
        ensures
            final(self).wf(),
            r matches Ok(()) <==> !has_entry(old(self).queries@, query_id@),
            r matches Err(e) ==> e matches BuzzError::Internal(_) && *final(self) == *old(self),
            r matches Ok(()) ==> final(self).queries@.len() == old(self).queries@.len() + 1
                && final(self).queries@.drop_last() == old(self).queries@ && ({
                let e = final(self).queries@.last();
                &&& e.query_id@ == query_id@
                &&& e.schema == schema
                &&& e.expected == expected_partitions
                &&& e.finished == 0
                &&& e.batches@.len() == 0
                &&& (e.output matches QueryOutput::Done <==> expected_partitions == 0)
                &&& (expected_partitions > 0 ==> e.output matches QueryOutput::Open)
            }),
    {
        match self.find(&query_id) {
            Some(_) => Err(
                BuzzError::Internal("a query with this id is already registered".to_owned()),
            ),
            None => {
                proof {
                    lemma_entry_index(self.queries@, query_id@);
                }
                let output = if expected_partitions == 0 {
                    QueryOutput::Done
                } else {
                    QueryOutput::Open
                };
                let entry = QueryEntry {
                    query_id,
                    schema,
                    expected: expected_partitions,
                    finished: 0,
                    batches: Vec::new(),
                    output,
                };
                self.queries.push(entry);
                proof {
                    assert(self.queries@.drop_last() =~= old(self).queries@);
                }
                Ok(())
            },
        }
    }

    /// Appends one scanner's finished upload to the query's channel: its
    /// batches join the channel and the upload counts as finished; the
    /// expected-th clean upload closes the channel (`Done`). An unknown
    /// query, a poisoned channel, or an upload beyond the expected count is
    /// an error and changes nothing.
    pub fn add_results(&mut self, query_id: &String, batches: Vec<RecordBatch>) -> (r: Result<
        (),
        BuzzError,
    >)
        requires
            old(self).wf(),
        ensures
            final(self).wf(),
            r matches Err(_) ==> final(self).queries@ == old(self).queries@,
            ({
                let s0 = old(self).queries@;
                if !has_entry(s0, query_id@) {
                    r matches Err(e) ==> e matches BuzzError::Internal(_)
                } else {
                    let i = entry_index(s0, query_id@);
                    match s0[i].output {
                        QueryOutput::Open => r matches Ok(()),
                        QueryOutput::Done => r matches Err(e) && e matches BuzzError::Internal(_),
                        QueryOutput::Failed(_) => r matches Err(e) && e matches
                            BuzzError::Execution(_),
                    }
                }
            }),
            (!has_entry(old(self).queries@, query_id@) ==> r matches Err(_)),
            r matches Ok(()) ==> ({
                let s0 = old(self).queries@;
                let s1 = final(self).queries@;
                let i = entry_index(s0, query_id@);
                &&& s1.len() == s0.len()
                &&& forall|j: int| 0 <= j < s0.len() && j != i ==> s1[j] == s0[j]
                &&& s1[i].query_id == s0[i].query_id
                &&& s1[i].schema == s0[i].schema
                &&& s1[i].expected == s0[i].expected
                &&& s1[i].finished == s0[i].finished + 1
                &&& s1[i].batches@ == s0[i].batches@ + batches@
                &&& (s1[i].output matches QueryOutput::Done <==> s1[i].finished == s1[i].expected)
                &&& (s1[i].finished < s1[i].expected ==> s1[i].output matches QueryOutput::Open)
            }),
    {
        let idx = match self.find(query_id) {
            Some(i) => i,
            None => {
                return Err(BuzzError::Internal("query is not registered".to_owned()));
            },
        };
        proof {
            lemma_entry_index(self.queries@, query_id@);
        }
        let ghost s0 = self.queries@;
        let entry = self.queries.remove(idx);
        match entry.output {
            QueryOutput::Failed(m) => {
                self.queries.insert(
                    idx,
                    QueryEntry {
                        query_id: entry.query_id,
                        schema: entry.schema,
                        expected: entry.expected,
                        finished: entry.finished,
                        batches: entry.batches,
                        output: QueryOutput::Failed(m),
                    },
                );
                proof {
                    assert(self.queries@ =~= s0);
                }
                Err(BuzzError::Execution("the query's channel is poisoned".to_owned()))
            },
            QueryOutput::Done => {
                self.queries.insert(
                    idx,
                    QueryEntry {
                        query_id: entry.query_id,
                        schema: entry.schema,
                        expected: entry.expected,
                        finished: entry.finished,
                        batches: entry.batches,
                        output: QueryOutput::Done,
                    },
                );
                proof {
                    assert(self.queries@ =~= s0);
                }
                Err(
                    BuzzError::Internal(
                        "an upload arrived after the expected count was reached".to_owned(),
                    ),
                )
            },
            QueryOutput::Open => {
                let mut channel = entry.batches;
                let mut incoming = batches;
                channel.append(&mut incoming);
                let finished = entry.finished + 1;
                let output = if finished == entry.expected {
                    QueryOutput::Done
                } else {
                    QueryOutput::Open
                };
                self.queries.insert(
                    idx,
                    QueryEntry {
                        query_id: entry.query_id,
                        schema: entry.schema,
                        expected: entry.expected,
                        finished,
                        batches: channel,
                        output,
                    },
                );
                proof {
                    assert(self.queries@ =~= s0.update(
                        idx as int,
                        self.queries@[idx as int],
                    ));
                }
                Ok(())
            },
        }
    }

    /// Poisons the query's channel with the error's message, so the merge
    /// stream surfaces it on its next poll. Idempotent: on an unknown,
    /// already failed or already completed query nothing changes, so a
    /// second FAIL has no further effect.
    pub fn fail(&mut self, query_id: &String, error: BuzzError)
        requires
            old(self).wf(),
        ensures
            final(self).wf(),
            fail_rel(old(self).queries@, final(self).queries@, query_id@, error.message_spec()),
    {
        let idx = match self.find(query_id) {
            Some(i) => i,
            None => {
                proof {
                    lemma_entry_index(self.queries@, query_id@);
                }
                return ;
            },
        };
        proof {
            lemma_entry_index(self.queries@, query_id@);
        }
        let ghost s0 = self.queries@;
        let entry = self.queries.remove(idx);
        match entry.output {
            QueryOutput::Open => {
                self.queries.insert(
                    idx,
                    QueryEntry {
                        query_id: entry.query_id,
                        schema: entry.schema,
                        expected: entry.expected,
                        finished: entry.finished,
                        batches: entry.batches,
                        output: QueryOutput::Failed(error.message()),
                    },
                );
                proof {
                    assert(self.queries@ =~= s0.update(idx as int, self.queries@[idx as int]));
                }
            },
            other => {
                self.queries.insert(
                    idx,
                    QueryEntry {
                        query_id: entry.query_id,
                        schema: entry.schema,
                        expected: entry.expected,
                        finished: entry.finished,
                        batches: entry.batches,
                        output: other,
                    },
                );
                proof {
                    assert(self.queries@ =~= s0);
                }
            },
        }
    }
}

/// The ticket of a combiner-side query, as the planner encodes it into the
/// RPC that opens the final stream: the query id, how many scanner uploads
/// to expect, the intermediate schema, and the merge stage's SQL.
pub struct HCombScanNode {
    pub query_id: String,
    pub nb_scanners: usize,
    pub schema: Schema,
    pub sql: String,
}

/// The verified core of the combiner's RPC surface. The host decodes the
/// wire frames (protobuf tickets, Flight data frames, JSON action bodies)
/// into plain values and hands them here; this type keeps the registry.
pub struct FlightServiceImpl {
    pub hcomb_service: HCombService,
}

impl FlightServiceImpl {
    pub fn new(hcomb_service: HCombService) -> (r: Self)
        ensures
            r.hcomb_service == hcomb_service,
    {
        Self { hcomb_service }
    }

    /// A planner's request for a query's final stream: registers the query,
    /// expecting one upload per scanner. The host then runs the merge SQL
    /// against the entry's channel and streams the result back.
    pub fn do_get(&mut self, node: HCombScanNode) -> (r: Result<(), BuzzError>)
        requires
            old(self).hcomb_service.wf(),
        ensures
            final(self).hcomb_service.wf(),
            r matches Ok(()) <==> !has_entry(old(self).hcomb_service.queries@, node.query_id@),
            r matches Err(e) ==> (e matches BuzzError::Internal(_)) && final(self)
                .hcomb_service.queries@ == old(self).hcomb_service.queries@,
            r matches Ok(()) ==> final(self).hcomb_service.queries@.len() == old(
                self,
            ).hcomb_service.queries@.len() + 1 && final(self).hcomb_service.queries@.drop_last()
                == old(self).hcomb_service.queries@ && ({
                let e = final(self).hcomb_service.queries@.last();
                &&& e.query_id@ == node.query_id@
                &&& e.schema == node.schema
                &&& e.expected == node.nb_scanners
                &&& e.finished == 0
                &&& e.batches@.len() == 0
                &&& (e.output matches QueryOutput::Done <==> node.nb_scanners == 0)
                &&& (node.nb_scanners > 0 ==> e.output matches QueryOutput::Open)
            }),
    {
        self.hcomb_service.execute_query(node.query_id, node.nb_scanners, node.schema)
    }

    /// One scanner's finished upload, as decoded from a `DoPut` stream: the
    /// first frame names the query, the rest carry its batches.
    pub fn do_put(&mut self, query_id: &String, batches: Vec<RecordBatch>) -> (r: Result<
        (),
        BuzzError,
    >)
        requires
            old(self).hcomb_service.wf(),
        ensures
            final(self).hcomb_service.wf(),
            r matches Err(_) ==> final(self).hcomb_service.queries@ == old(
                self,
            ).hcomb_service.queries@,
            ({
                let s0 = old(self).hcomb_service.queries@;
                if !has_entry(s0, query_id@) {
                    r matches Err(e) && e matches BuzzError::Internal(_)
                } else {
                    let i = entry_index(s0, query_id@);
                    match s0[i].output {
                        QueryOutput::Open => r matches Ok(()),
                        QueryOutput::Done => r matches Err(e) && e matches BuzzError::Internal(_),
                        QueryOutput::Failed(_) => r matches Err(e) && e matches
                            BuzzError::Execution(_),
                    }
                }
            }),
            r matches Ok(()) ==> ({
                let s0 = old(self).hcomb_service.queries@;
                let s1 = final(self).hcomb_service.queries@;
                let i = entry_index(s0, query_id@);
                &&& has_entry(s0, query_id@)
                &&& s1.len() == s0.len()
                &&& forall|j: int| 0 <= j < s0.len() && j != i ==> s1[j] == s0[j]
                &&& s1[i].query_id == s0[i].query_id
                &&& s1[i].schema == s0[i].schema
                &&& s1[i].expected == s0[i].expected
                &&& s1[i].finished == s0[i].finished + 1
                &&& s1[i].batches@ == s0[i].batches@ + batches@
                &&& (s1[i].output matches QueryOutput::Done <==> s1[i].finished == s1[i].expected)
                &&& (s1[i].finished < s1[i].expected ==> s1[i].output matches QueryOutput::Open)
            }),
    {
        self.hcomb_service.add_results(query_id, batches)
    }

    /// One control-plane action: a FAIL poisons the named query's channel
    /// with the scanner's reason; a health check does nothing; an unknown
    /// action is not implemented. The host decodes the action's JSON body
    /// before calling, so a FAIL always arrives with its body.
    pub fn do_action(&mut self, action_type: &String, fail_body: Option<Fail>) -> (r: Result<
        (),
        BuzzError,
    >)
        requires
            old(self).hcomb_service.wf(),
            spec_action_type(action_type@) == ActionType::Fail ==> fail_body is Some,
        ensures
            final(self).hcomb_service.wf(),
            spec_action_type(action_type@) == ActionType::HealthCheck ==> (r matches Ok(()))
                && final(self).hcomb_service.queries@ == old(self).hcomb_service.queries@,
            spec_action_type(action_type@) == ActionType::Unknown ==> (r matches Err(e) && e
                matches BuzzError::NotImplemented(_)) && final(self).hcomb_service.queries@ == old(
                self,
            ).hcomb_service.queries@,
            spec_action_type(action_type@) == ActionType::Fail ==> (r matches Ok(())) && fail_rel(
                old(self).hcomb_service.queries@,
                final(self).hcomb_service.queries@,
                fail_body.unwrap().query_id@,
                fail_body.unwrap().reason@,
            ),
    {
        match ActionType::from_string(action_type) {
            ActionType::Fail => match fail_body {
                Some(fail) => {
                    self.hcomb_service.fail(
                        &fail.query_id,
                        BuzzError::RemoteFail(fail.reason),
                    );
                    Ok(())
                },
                None => {
                    proof {
                        assert(false);
                    }
                    Ok(())
                },
            },
            ActionType::HealthCheck => Ok(()),
            ActionType::Unknown => Err(
                BuzzError::NotImplemented("this action is not implemented".to_owned()),
            ),
        }
    }
}

/// Law: a query's output stream completes exactly when all expected
/// scanner uploads finished cleanly and no FAIL arrived — never both,
/// and, short of a FAIL, never neither once the count is reached. (When
/// neither happens the stream stays open: callers impose a timeout.)
pub proof fn lemma_completion(e: QueryEntry)
    requires
        e.wf(),
    ensures
        (e.output matches QueryOutput::Done) <==> (e.finished == e.expected && !(e.output
            matches QueryOutput::Failed(_))),
        !((e.output matches QueryOutput::Done) && (e.output matches QueryOutput::Failed(_))),
{
}

/// Law: FAIL is idempotent. Once a FAIL for a query has been applied, a
/// second FAIL for the same query — whatever its reason — leaves the
/// registry exactly as the first left it.
pub proof fn lemma_fail_idempotent(
    s0: Seq<QueryEntry>,
    s1: Seq<QueryEntry>,
    s2: Seq<QueryEntry>,
    qid: Seq<char>,
    r1: Seq<char>,
    r2: Seq<char>,
)
    requires
        fail_rel(s0, s1, qid, r1),
        fail_rel(s1, s2, qid, r2),
    ensures
        s2 == s1,
{
    assert forall|i: int| 0 <= i < s1.len() implies s2[i] == s1[i] by {
        if s0[i].query_id@ == qid && (s0[i].output matches QueryOutput::Open) {
            assert(s1[i].output matches QueryOutput::Failed(_));
        } else {
            assert(s1[i] == s0[i]);
        }
    }
    assert(s2 =~= s1);
}

} // verus!
