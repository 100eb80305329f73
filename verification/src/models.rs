//! The model registry: which definitions are loaded, the supervised state of
//! the process backing each one, its captured log history, and the
//! subscription cursors used to tail logs live.
//!
//! The registry itself is a plain value; the surrounding server owns the real
//! child processes, keyed by the handles recorded here, and must terminate
//! every handle an operation reports as removed.

mod quantization;

pub use quantization::{Q2, Q3, Q4, Q5, Q6, Q8, Quantization};

use vstd::prelude::*;
use crate::config::{AliasOrIndex, Config, ConfigError, ModelConfig, ModelTypeConfig, SpecModelConfig, SpecModelTypeConfig};
use crate::config::{spec_match_count, spec_sel_matches, spec_spawn_args};
use crate::text::{dec_i64, spec_dec_i64, spec_valid_base_url};
use crate::json::{Json, SpecJson, spec_quote, spec_render, spec_render_pairs};

verus! {

/// Relies on chrono::Utc::now for the capture time of a log entry; nothing is
/// promised of the value.
#[verifier::external_body]
fn now_millis() -> i64 {
    chrono::Utc::now().timestamp_millis()
}

/// One captured chunk of process output, stamped in milliseconds since the
/// epoch.
#[derive(Debug)]
pub struct TimestampedMessage {
    pub timestamp: i64,
    pub message: String,
}

/// The mathematical shape of a captured chunk.
#[verifier::ext_equal]
pub struct SpecTimestampedMessage {
    pub timestamp: i64,
    pub message: Seq<char>,
}

impl View for TimestampedMessage {
    type V = SpecTimestampedMessage;

    open spec fn view(&self) -> SpecTimestampedMessage {
        SpecTimestampedMessage { timestamp: self.timestamp, message: self.message@ }
    }
}

impl DeepView for TimestampedMessage {
    type V = SpecTimestampedMessage;

    open spec fn deep_view(&self) -> SpecTimestampedMessage {
        self.view()
    }
}

impl TimestampedMessage {
    /// Stamps a message with the current wall-clock time.
    pub fn new(message: String) -> (r: Self)
        ensures
            r@.message == message@,
    {
        TimestampedMessage { timestamp: now_millis(), message }
    }
}

/// One log entry, tagged with the stream it was captured from.
#[derive(Debug)]
pub enum Log {
    StdOut(TimestampedMessage),
    StdErr(TimestampedMessage),
}

/// The mathematical shape of a log entry.
#[verifier::ext_equal]
pub enum SpecLog {
    StdOut(SpecTimestampedMessage),
    StdErr(SpecTimestampedMessage),
}

impl View for Log {
    type V = SpecLog;

    open spec fn view(&self) -> SpecLog {
        match self {
            Log::StdOut(m) => SpecLog::StdOut(m@),
            Log::StdErr(m) => SpecLog::StdErr(m@),
        }
    }
}

impl DeepView for Log {
    type V = SpecLog;

    open spec fn deep_view(&self) -> SpecLog {
        self.view()
    }
}

impl SpecLog {
    /// The tag naming the stream an entry came from.
    pub open spec fn stream_tag(&self) -> Seq<char> {
        match self {
            SpecLog::StdOut(_) => "StdOut"@,
            SpecLog::StdErr(_) => "StdErr"@,
        }
    }

    /// The captured chunk of an entry.
    pub open spec fn entry(&self) -> SpecTimestampedMessage {
        match *self {
            SpecLog::StdOut(m) => m,
            SpecLog::StdErr(m) => m,
        }
    }
}

/// The plain-text form of a log entry: stream, capture time and text,
/// separated by dashes.
pub open spec fn spec_plain_line(l: SpecLog) -> Seq<char> {
    l.stream_tag() + " - "@ + spec_dec_i64(l.entry().timestamp as int) + " - "@ + l.entry().message
}

/// The structured form of a log entry: stream, capture time and text as one
/// object.
pub open spec fn spec_log_json(l: SpecLog) -> SpecJson {
    SpecJson::Obj(
        seq![
            ("stream"@, SpecJson::Str(l.stream_tag())),
            ("timestamp"@, SpecJson::Num(spec_dec_i64(l.entry().timestamp as int))),
            ("message"@, SpecJson::Str(l.entry().message)),
        ],
    )
}

/// The rendered structured form of a log entry.
pub open spec fn spec_json_line(l: SpecLog) -> Seq<char> {
    spec_render(spec_log_json(l))
}

impl Log {
    /// An equal entry, built afresh.
    pub fn duplicate(&self) -> (r: Log)
        ensures
            r@ == self@,
    {
        match self {
            Log::StdOut(m) => Log::StdOut(
                TimestampedMessage { timestamp: m.timestamp, message: m.message.clone() },
            ),
            Log::StdErr(m) => Log::StdErr(
                TimestampedMessage { timestamp: m.timestamp, message: m.message.clone() },
            ),
        }
    }

    /// This entry as a plain text line.
    pub fn to_plain_line(&self) -> (r: String)
        ensures
            r@ == spec_plain_line(self@),
    {
        let mut s = String::new();
        match self {
            Log::StdOut(_) => s.append("StdOut"),
            Log::StdErr(_) => s.append("StdErr"),
        }
        s.append(" - ");
        let m = match self {
            Log::StdOut(m) => m,
            Log::StdErr(m) => m,
        };
        s.append(dec_i64(m.timestamp).as_str());
        s.append(" - ");
        s.append(m.message.as_str());
        assert(s@ =~= spec_plain_line(self@));
        s
    }

    /// This entry as one rendered object.
    pub fn to_json_line(&self) -> (r: String)
        ensures
            r@ == spec_json_line(self@),
    {
        let m = match self {
            Log::StdOut(m) => m,
            Log::StdErr(m) => m,
        };
        let tag: String = match self {
            Log::StdOut(_) => "StdOut".to_owned(),
            Log::StdErr(_) => "StdErr".to_owned(),
        };
        let mut pairs: Vec<(String, Json)> = Vec::new();
        pairs.push(("stream".to_owned(), Json::Str(tag)));
        pairs.push(("timestamp".to_owned(), Json::Num(dec_i64(m.timestamp))));
        pairs.push(("message".to_owned(), Json::Str(m.message.clone())));
        let v = Json::Obj(pairs);
        proof {
            assert(pairs@.len() == 3);
            assert(v@->Obj_0.len() == 3);
            assert(v@->Obj_0[0] == (pairs@[0].0@, pairs@[0].1@));
            assert(v@->Obj_0[1] == (pairs@[1].0@, pairs@[1].1@));
            assert(v@->Obj_0[2] == (pairs@[2].0@, pairs@[2].1@));
            assert(pairs@[0].1@ == SpecJson::Str(self@.stream_tag()));
            assert(pairs@[1].1@ == SpecJson::Num(spec_dec_i64(self@.entry().timestamp as int)));
            assert(pairs@[2].1@ == SpecJson::Str(self@.entry().message));
            assert(v@->Obj_0 =~= spec_log_json(self@)->Obj_0);
            assert(v@ =~= spec_log_json(self@));
        }
        v.render()
    }
}

/// Copies a log history.
pub fn duplicate_logs(logs: &Vec<Log>) -> (r: Vec<Log>)
    ensures
        r.deep_view() == logs.deep_view(),
{
    let n = logs.len();
    let mut out: Vec<Log> = Vec::new();
    let mut i: usize = 0;
    while i < n
        invariant
            i <= n,
            n == logs@.len(),
            out@.len() == i,
            forall|j: int| 0 <= j < i ==> #[trigger] out@[j]@ == logs@[j]@,
        decreases n - i,
    {
        out.push(logs[i].duplicate());
        i = i + 1;
    }
    assert(out.deep_view() =~= logs.deep_view());
    out
}

/// The supervised state of one running backend process: the handle the server
/// knows the real child by, and the captured log history.
#[derive(Debug)]
pub struct Spawned {
    pub handle: u64,
    pub logs: Vec<Log>,
}

/// The mathematical shape of a supervised process.
#[verifier::ext_equal]
pub struct SpecSpawned {
    pub handle: u64,
    pub logs: Seq<SpecLog>,
}

impl View for Spawned {
    type V = SpecSpawned;

    open spec fn view(&self) -> SpecSpawned {
        SpecSpawned { handle: self.handle, logs: self.logs.deep_view() }
    }
}

impl DeepView for Spawned {
    type V = SpecSpawned;

    open spec fn deep_view(&self) -> SpecSpawned {
        self.view()
    }
}

/// One loaded model: the definition it was loaded from, and its process
/// state when the definition spawns one.
#[derive(Debug)]
pub struct LoadedModel {
    pub config: ModelConfig,
    pub spawned: Option<Spawned>,
}

/// The mathematical shape of one loaded model.
#[verifier::ext_equal]
pub struct SpecLoadedModel {
    pub config: SpecModelConfig,
    pub spawned: Option<SpecSpawned>,
}

impl View for LoadedModel {
    type V = SpecLoadedModel;

    open spec fn view(&self) -> SpecLoadedModel {
        SpecLoadedModel { config: self.config@, spawned: self.spawned.deep_view() }
    }
}

impl DeepView for LoadedModel {
    type V = SpecLoadedModel;

    open spec fn deep_view(&self) -> SpecLoadedModel {
        self.view()
    }
}

/// A live subscription to a process's log fan-out: entries before `pos` have
/// been delivered, entries at or after it are pending.
#[derive(Debug)]
pub struct TailReceiver {
    pub handle: u64,
    pub pos: usize,
}

/// A history snapshot taken together with a live subscription, so a caller
/// sees every entry exactly once.
#[derive(Debug)]
pub struct LogsAndTailReceiver {
    pub tail_receiver: TailReceiver,
    pub logs: Vec<Log>,
}

/// Whether some entry is registered under `alias`.
pub open spec fn spec_has_alias(s: Seq<SpecLoadedModel>, alias: Seq<char>) -> bool {
    exists|i: int| 0 <= i < s.len() && (#[trigger] s[i]).config.spec_alias() == alias
}

/// The entry registered under `alias`.
pub open spec fn spec_entry_for(s: Seq<SpecLoadedModel>, alias: Seq<char>) -> SpecLoadedModel
    recommends
        spec_has_alias(s, alias),
{
    s[choose|i: int| 0 <= i < s.len() && (#[trigger] s[i]).config.spec_alias() == alias]
}

/// Whether some entry's process is known by `handle`.
pub open spec fn spec_has_handle(s: Seq<SpecLoadedModel>, handle: u64) -> bool {
    exists|i: int|
        0 <= i < s.len() && ((#[trigger] s[i]).spawned matches Some(sp) && sp.handle == handle)
}

/// The entry whose process is known by `handle`.
pub open spec fn spec_entry_with_handle(s: Seq<SpecLoadedModel>, handle: u64) -> SpecLoadedModel
    recommends
        spec_has_handle(s, handle),
{
    s[choose|i: int|
        0 <= i < s.len() && ((#[trigger] s[i]).spawned matches Some(sp) && sp.handle == handle)]
}

/// Registry well-formedness: one entry per alias, one entry per process
/// handle, and every stored definition resolved with a joinable URL.
pub open spec fn spec_entries_wf(s: Seq<SpecLoadedModel>) -> bool {
    &&& forall|i: int, j: int|
        0 <= i < j < s.len() ==> (#[trigger] s[i]).config.spec_alias() != (
        #[trigger] s[j]).config.spec_alias()
    &&& forall|i: int|
        0 <= i < s.len() ==> (#[trigger] s[i]).config.is_resolved() && spec_valid_base_url(
            s[i].config.spec_url(),
        )
    &&& forall|i: int, j: int|
        0 <= i < j < s.len() ==> match ((#[trigger] s[i]).spawned, (#[trigger] s[j]).spawned) {
            (Some(a), Some(b)) => a.handle != b.handle,
            _ => true,
        }
}

/// The registry of loaded models.
pub struct Models {
    pub loaded: Vec<LoadedModel>,
}

impl Models {
    /// The registry's mathematical contents.
    pub open spec fn entries(&self) -> Seq<SpecLoadedModel> {
        self.loaded.deep_view()
    }

    /// Registry well-formedness.
    pub open spec fn wf(&self) -> bool {
        spec_entries_wf(self.entries())
    }

    /// An empty registry, as the server starts with.
    pub fn new() -> (r: Models)
        ensures
            r.wf(),
            r.entries().len() == 0,
    {
        let r = Models { loaded: Vec::new() };
        assert(r.entries() =~= Seq::<SpecLoadedModel>::empty());
        r
    }

    /// The position of the entry under `alias`, if any.
    fn find_alias_index(&self, alias: &str) -> (r: Option<usize>)
        ensures
            match r {
                Some(i) => i < self.entries().len() && self.entries()[i as int].config.spec_alias()
                    == alias@,
                None => !spec_has_alias(self.entries(), alias@),
            },
    {
        let n = self.loaded.len();
        proof {
            assert(self.entries().len() == n);
        }
        let mut i: usize = 0;
        while i < n
            invariant
                i <= n,
                n == self.entries().len(),
                n == self.loaded@.len(),
                forall|j: int|
                    0 <= j < i ==> (#[trigger] self.entries()[j]).config.spec_alias() != alias@,
            decreases n - i,
        {
            if crate::text::str_eq(self.loaded[i].config.alias(), alias) {
                return Some(i);
            }
            i = i + 1;
        }
        None
    }

    /// The position of the entry whose process is known by `handle`, if any.
    fn find_handle_index(&self, handle: u64) -> (r: Option<usize>)
        ensures
            match r {
                Some(i) => i < self.entries().len() && (self.entries()[i as int].spawned
                    matches Some(sp) && sp.handle == handle),
                None => !spec_has_handle(self.entries(), handle),
            },
    {
        let n = self.loaded.len();
        let mut i: usize = 0;
        while i < n
            invariant
                i <= n,
                n == self.entries().len(),
                n == self.loaded@.len(),
                forall|j: int|
                    0 <= j < i ==> !((#[trigger] self.entries()[j]).spawned matches Some(sp)
                        && sp.handle == handle),
            decreases n - i,
        {
            let hit = match &self.loaded[i].spawned {
                Some(sp) => sp.handle == handle,
                None => false,
            };
            if hit {
                return Some(i);
            }
            i = i + 1;
        }
        None
    }

    /// Whether some entry's process is known by `handle`: how the server
    /// checks a fresh handle before registering a new process under it.
    pub fn contains_handle(&self, handle: u64) -> (r: bool)
        ensures
            r == spec_has_handle(self.entries(), handle),
    {
        self.find_handle_index(handle).is_some()
    }

    /// The definition loaded under `alias`, if any.
    pub fn get_loaded_config(&self, alias: &str) -> (r: Option<ModelConfig>)
        requires
            self.wf(),
        ensures
            match r {
                Some(c) => spec_has_alias(self.entries(), alias@) && c@ == spec_entry_for(
                    self.entries(),
                    alias@,
                ).config,
                None => !spec_has_alias(self.entries(), alias@),
            },
    {
        match self.find_alias_index(alias) {
            None => None,
            Some(i) => {
                proof {
                    lemma_entry_for_at(self.entries(), i as int);
                }
                Some(self.loaded[i].config.duplicate())
            }
        }
    }

    /// Snapshots of every loaded definition, in registry order.
    pub fn get_loaded_configs(&self) -> (r: Vec<ModelConfig>)
        ensures
            r.deep_view().len() == self.entries().len(),
            forall|i: int|
                0 <= i < self.entries().len() ==> #[trigger] r.deep_view()[i] == self.entries()[i].config,
    {
        let n = self.loaded.len();
        let mut out: Vec<ModelConfig> = Vec::new();
        let mut i: usize = 0;
        while i < n
            invariant
                i <= n,
                n == self.loaded@.len(),
                out@.len() == i,
                forall|j: int| 0 <= j < i ==> #[trigger] out@[j]@ == self.loaded@[j]@.config,
            decreases n - i,
        {
            out.push(self.loaded[i].config.duplicate());
            i = i + 1;
        }
        out
    }

    /// Removes the entry under `alias` and hands it back whole, so the caller
    /// can tear its process down. Removing an absent alias changes nothing.
    fn remove_alias(&mut self, alias: &str) -> (r: Option<LoadedModel>)
        requires
            old(self).wf(),
        ensures
            final(self).wf(),
            match r {
                None => {
                    &&& !spec_has_alias(old(self).entries(), alias@)
                    &&& final(self).entries() == old(self).entries()
                },
                Some(e) => {
                    &&& spec_has_alias(old(self).entries(), alias@)
                    &&& e@ == spec_entry_for(old(self).entries(), alias@)
                    &&& !spec_has_alias(final(self).entries(), alias@)
                    &&& final(self).entries().len() == old(self).entries().len() - 1
                    &&& forall|b: Seq<char>|
                        b != alias@ ==> #[trigger] spec_has_alias(final(self).entries(), b)
                            == spec_has_alias(old(self).entries(), b)
                    &&& forall|b: Seq<char>|
                        b != alias@ && spec_has_alias(old(self).entries(), b)
                            ==> #[trigger] spec_entry_for(final(self).entries(), b)
                            == spec_entry_for(old(self).entries(), b)
                    &&& forall|h: u64|
                        #[trigger] spec_has_handle(final(self).entries(), h) == (spec_has_handle(
                            old(self).entries(),
                            h,
                        ) && !(e@.spawned matches Some(sp) && sp.handle == h))
                },
            },
    {
        match self.find_alias_index(alias) {
            None => None,
            Some(i) => {
                let ghost s0 = self.entries();
                proof {
                    lemma_entry_for_at(s0, i as int);
                }
                let e = self.loaded.remove(i);
                proof {
                    assert(self.entries() =~= s0.remove(i as int));
                    lemma_remove_effect(s0, self.entries(), i as int);
                }
                Some(e)
            }
        }
    }

    /// Removes and returns the definition loaded under `alias`; removing an
    /// alias that is not loaded removes nothing and reports so.
    pub fn unload(&mut self, alias: &str) -> (r: Option<ModelConfig>)
        requires
            old(self).wf(),
        ensures
            final(self).wf(),
            match r {
                None => {
                    &&& !spec_has_alias(old(self).entries(), alias@)
                    &&& final(self).entries() == old(self).entries()
                },
                Some(c) => {
                    &&& spec_has_alias(old(self).entries(), alias@)
                    &&& c@ == spec_entry_for(old(self).entries(), alias@).config
                    &&& !spec_has_alias(final(self).entries(), alias@)
                    &&& final(self).entries().len() == old(self).entries().len() - 1
                    &&& forall|b: Seq<char>|
                        b != alias@ ==> #[trigger] spec_has_alias(final(self).entries(), b)
                            == spec_has_alias(old(self).entries(), b)
                    &&& forall|b: Seq<char>|
                        b != alias@ && spec_has_alias(old(self).entries(), b)
                            ==> #[trigger] spec_entry_for(final(self).entries(), b)
                            == spec_entry_for(old(self).entries(), b)
                },
            },
    {
        match self.remove_alias(alias) {
            None => None,
            Some(e) => Some(e.config),
        }
    }

    /// The log history and a live subscription for the process under `alias`.
    /// Definitions without a process — remote providers — have none.
    pub fn get_logs_and_receiver(&self, alias: &str) -> (r: Option<LogsAndTailReceiver>)
        requires
            self.wf(),
        ensures
            match r {
                None => !spec_has_alias(self.entries(), alias@) || spec_entry_for(
                    self.entries(),
                    alias@,
                ).spawned is None,
                Some(x) => {
                    &&& spec_has_alias(self.entries(), alias@)
                    &&& spec_entry_for(self.entries(), alias@).spawned matches Some(sp)
                        && x.logs.deep_view() == sp.logs && x.tail_receiver.handle == sp.handle
                        && x.tail_receiver.pos == sp.logs.len()
                },
            },
    {
        match self.find_alias_index(alias) {
            None => None,
            Some(i) => {
                proof {
                    lemma_entry_for_at(self.entries(), i as int);
                }
                match &self.loaded[i].spawned {
                    None => None,
                    Some(sp) => Some(
                        LogsAndTailReceiver {
                            tail_receiver: TailReceiver { handle: sp.handle, pos: sp.logs.len() },
                            logs: duplicate_logs(&sp.logs),
                        },
                    ),
                }
            }
        }
    }

    /// Appends one captured entry to the history of the process known by
    /// `handle`. Entries for processes no longer registered are dropped.
    pub fn push_log(&mut self, handle: u64, log: Log)
        requires
            old(self).wf(),
        ensures
            final(self).wf(),
            !spec_has_handle(old(self).entries(), handle) ==> final(self).entries() == old(
                self,
            ).entries(),
            spec_has_handle(old(self).entries(), handle) ==> {
                &&& final(self).entries().len() == old(self).entries().len()
                &&& exists|i: int|
                    {
                        &&& 0 <= i < old(self).entries().len()
                        &&& ((#[trigger] old(self).entries()[i]).spawned matches Some(sp)
                            && sp.handle == handle && final(self).entries()[i] == SpecLoadedModel {
                            config: old(self).entries()[i].config,
                            spawned: Some(SpecSpawned { handle, logs: sp.logs.push(log@) }),
                        })
                        &&& forall|j: int|
                            0 <= j < old(self).entries().len() && j != i
                                ==> final(self).entries()[j] == old(self).entries()[j]
                    }
            },
    {
        let idx = match self.find_handle_index(handle) {
            None => {
                return ;
            }
            Some(i) => i,
        };
        let ghost l0 = self.loaded@;
        let ghost s0 = self.entries();
        let mut e = self.loaded.remove(idx);
        let ghost sp0 = s0[idx as int].spawned->Some_0;
        let spawned = match e.spawned {
            Some(mut sp) => {
                sp.logs.push(log);
                proof {
                    assert(sp.logs.deep_view() =~= sp0.logs.push(log@));
                }
                Some(sp)
            }
            None => None,
        };
        e = LoadedModel { config: e.config, spawned };
        proof {
            assert(e@ == SpecLoadedModel {
                config: s0[idx as int].config,
                spawned: Some(SpecSpawned { handle, logs: sp0.logs.push(log@) }),
            });
        }
        self.loaded.insert(idx, e);
        proof {
            assert(self.loaded@.len() == l0.len());
            assert forall|j: int| 0 <= j < l0.len() && j != idx implies self.loaded@[j] == l0[j] by {
                if j < idx {
                    assert(self.loaded@[j] == l0.remove(idx as int)[j]);
                } else {
                    assert(self.loaded@[j] == l0.remove(idx as int)[j - 1]);
                    assert(l0.remove(idx as int)[j - 1] == l0[j]);
                }
            }
            assert(self.entries().len() == s0.len());
            assert forall|j: int|
                0 <= j < s0.len() && j != idx implies self.entries()[j] == s0[j] by {
                assert(self.loaded@[j] == l0[j]);
            }
            assert(self.loaded@[idx as int] == e);
            assert(self.entries()[idx as int] == SpecLoadedModel {
                config: s0[idx as int].config,
                spawned: Some(SpecSpawned { handle, logs: sp0.logs.push(log@) }),
            });
            assert forall|i2: int| 0 <= i2 < s0.len() implies (#[trigger] self.entries()[i2]).config
                == s0[i2].config && (match (self.entries()[i2].spawned, s0[i2].spawned) {
                (Some(a), Some(b)) => a.handle == b.handle,
                (None, None) => true,
                _ => false,
            }) by {
                if i2 != idx {
                    assert(self.entries()[i2] == s0[i2]);
                }
            }
            assert(spec_entries_wf(self.entries()));
        }
    }

    /// Hands a subscriber every entry captured since its last poll, in
    /// capture order, and advances its cursor. A subscription whose process
    /// is gone ends with nothing.
    pub fn poll_tail(&self, rx: &mut TailReceiver) -> (r: Option<Vec<Log>>)
        requires
            self.wf(),
        ensures
            final(rx).handle == old(rx).handle,
            match r {
                None => !spec_has_handle(self.entries(), old(rx).handle) && *final(rx) == *old(rx),
                Some(delivered) => {
                    &&& spec_has_handle(self.entries(), old(rx).handle)
                    &&& spec_entry_with_handle(self.entries(), old(rx).handle).spawned matches Some(
                        sp,
                    ) && {
                        let start = if old(rx).pos as int <= sp.logs.len() {
                            old(rx).pos as int
                        } else {
                            sp.logs.len() as int
                        };
                        &&& delivered.deep_view() == sp.logs.subrange(start, sp.logs.len() as int)
                        &&& final(rx).pos == sp.logs.len()
                    }
                },
            },
    {
        let idx = match self.find_handle_index(rx.handle) {
            None => {
                return None;
            }
            Some(i) => i,
        };
        proof {
            lemma_entry_with_handle_at(self.entries(), idx as int, rx.handle);
        }
        let logs: &Vec<Log> = match &self.loaded[idx].spawned {
            Some(sp) => &sp.logs,
            None => {
                proof {
                    assert(false);
                }
                unreached()
            }
        };
        let n = logs.len();
        let start: usize = if rx.pos <= n {
            rx.pos
        } else {
            n
        };
        let mut out: Vec<Log> = Vec::new();
        let mut i: usize = start;
        while i < n
            invariant
                start <= i <= n,
                n == logs@.len(),
                out@.len() == i - start,
                forall|j: int| 0 <= j < out@.len() ==> #[trigger] out@[j]@ == logs@[start + j]@,
            decreases n - i,
        {
            out.push(logs[i].duplicate());
            i = i + 1;
        }
        rx.pos = n;
        proof {
            assert(out.deep_view() =~= logs.deep_view().subrange(start as int, n as int));
        }
        Some(out)
    }
}

/// Under unique aliases, the entry found at a position is the entry its alias
/// selects.
proof fn lemma_entry_for_at(s: Seq<SpecLoadedModel>, i: int)
    requires
        spec_entries_wf(s),
        0 <= i < s.len(),
    ensures
        spec_has_alias(s, s[i].config.spec_alias()),
        spec_entry_for(s, s[i].config.spec_alias()) == s[i],
{
    let a = s[i].config.spec_alias();
    assert(spec_has_alias(s, a));
    let j = choose|j: int| 0 <= j < s.len() && (#[trigger] s[j]).config.spec_alias() == a;
    if i < j {
        assert(s[i].config.spec_alias() != s[j].config.spec_alias());
    } else if j < i {
        assert(s[j].config.spec_alias() != s[i].config.spec_alias());
    }
}

/// Under unique handles, the entry found at a position is the entry its
/// handle selects.
proof fn lemma_entry_with_handle_at(s: Seq<SpecLoadedModel>, i: int, h: u64)
    requires
        spec_entries_wf(s),
        0 <= i < s.len(),
        s[i].spawned matches Some(sp) && sp.handle == h,
    ensures
        spec_has_handle(s, h),
        spec_entry_with_handle(s, h) == s[i],
{
    assert(spec_has_handle(s, h));
    let j = choose|j: int|
        0 <= j < s.len() && ((#[trigger] s[j]).spawned matches Some(sp) && sp.handle == h);
    if i < j {
        assert(match (s[i].spawned, s[j].spawned) {
            (Some(a), Some(b)) => a.handle != b.handle,
            _ => true,
        });
    } else if j < i {
        assert(match (s[j].spawned, s[i].spawned) {
            (Some(a), Some(b)) => a.handle != b.handle,
            _ => true,
        });
    }
}

/// What removing the entry at `i` does to alias and handle lookups.
proof fn lemma_remove_effect(s0: Seq<SpecLoadedModel>, s1: Seq<SpecLoadedModel>, i: int)
    requires
        spec_entries_wf(s0),
        0 <= i < s0.len(),
        s1 == s0.remove(i),
    ensures
        spec_entries_wf(s1),
        !spec_has_alias(s1, s0[i].config.spec_alias()),
        forall|b: Seq<char>|
            b != s0[i].config.spec_alias() ==> #[trigger] spec_has_alias(s1, b) == spec_has_alias(
                s0,
                b,
            ),
        forall|b: Seq<char>|
            b != s0[i].config.spec_alias() && spec_has_alias(s0, b) ==> #[trigger] spec_entry_for(
                s1,
                b,
            ) == spec_entry_for(s0, b),
        forall|h: u64|
            #[trigger] spec_has_handle(s1, h) == (spec_has_handle(s0, h) && !(s0[i].spawned
                matches Some(sp) && sp.handle == h)),
{
    assert(s1.len() == s0.len() - 1);
    assert(forall|k: int| 0 <= k < i ==> s1[k] == s0[k]);
    assert(forall|k: int| i <= k < s1.len() ==> s1[k] == s0[k + 1]);
    assert(spec_entries_wf(s1));
    let a0 = s0[i].config.spec_alias();
    if spec_has_alias(s1, a0) {
        let k = choose|k: int| 0 <= k < s1.len() && (#[trigger] s1[k]).config.spec_alias() == a0;
        let k0 = if k < i {
            k
        } else {
            k + 1
        };
        assert(s0[k0].config.spec_alias() == a0);
        assert(k0 != i);
        assert(false);
    }
    assert forall|b: Seq<char>| b != a0 implies #[trigger] spec_has_alias(s1, b) == spec_has_alias(
        s0,
        b,
    ) by {
        if spec_has_alias(s1, b) {
            let k = choose|k: int|
                0 <= k < s1.len() && (#[trigger] s1[k]).config.spec_alias() == b;
            let k0 = if k < i {
                k
            } else {
                k + 1
            };
            assert(s0[k0].config.spec_alias() == b);
        }
        if spec_has_alias(s0, b) {
            let k0 = choose|k0: int|
                0 <= k0 < s0.len() && (#[trigger] s0[k0]).config.spec_alias() == b;
            assert(k0 != i);
            let k = if k0 < i {
                k0
            } else {
                k0 - 1
            };
            assert(s1[k].config.spec_alias() == b);
        }
    }
    assert forall|b: Seq<char>|
        b != a0 && spec_has_alias(s0, b) implies #[trigger] spec_entry_for(s1, b) == spec_entry_for(
        s0,
        b,
    ) by {
        let k0 = choose|k0: int| 0 <= k0 < s0.len() && (#[trigger] s0[k0]).config.spec_alias() == b;
        assert(k0 != i);
        let k = if k0 < i {
            k0
        } else {
            k0 - 1
        };
        assert(s1[k].config.spec_alias() == b);
        lemma_entry_for_at(s0, k0);
        lemma_entry_for_at(s1, k);
    }
    assert forall|h: u64|
        #[trigger] spec_has_handle(s1, h) == (spec_has_handle(s0, h) && !(s0[i].spawned
            matches Some(sp) && sp.handle == h)) by {
        if spec_has_handle(s1, h) {
            let k = choose|k: int|
                0 <= k < s1.len() && ((#[trigger] s1[k]).spawned matches Some(sp) && sp.handle
                    == h);
            let k0 = if k < i {
                k
            } else {
                k + 1
            };
            assert(s0[k0].spawned matches Some(sp) && sp.handle == h);
            assert(spec_has_handle(s0, h));
            if s0[i].spawned matches Some(sp) && sp.handle == h {
                if i < k0 {
                    assert(match (s0[i].spawned, s0[k0].spawned) {
                        (Some(a), Some(b)) => a.handle != b.handle,
                        _ => true,
                    });
                } else {
                    assert(match (s0[k0].spawned, s0[i].spawned) {
                        (Some(a), Some(b)) => a.handle != b.handle,
                        _ => true,
                    });
                }
                assert(false);
            }
        }
        if spec_has_handle(s0, h) && !(s0[i].spawned matches Some(sp) && sp.handle == h) {
            let k0 = choose|k0: int|
                0 <= k0 < s0.len() && ((#[trigger] s0[k0]).spawned matches Some(sp) && sp.handle
                    == h);
            assert(k0 != i);
            let k = if k0 < i {
                k0
            } else {
                k0 - 1
            };
            assert(s1[k].spawned matches Some(sp) && sp.handle == h);
            assert(spec_has_handle(s1, h));
        }
    }
}


/// The target of the load step being carried out: the resolved definition
/// and the aliases its unload cascade removes.
pub struct CurrentTarget {
    pub definition: ModelConfig,
    pub unload_aliases: Vec<String>,
}

/// One load call in progress: a worklist of the definitions still to load,
/// and the aliases already loaded in this call, which guards cascade cycles.
pub struct LoadSession {
    pub pending: Vec<AliasOrIndex>,
    pub visited: Vec<String>,
    pub current: Option<CurrentTarget>,
}

/// What the server must do next to carry a load forward.
pub enum LoadStep {
    /// The worklist is empty: everything requested has been loaded.
    Done,
    /// The next worklist entry was already loaded in this call.
    Skipped,
    /// A target stands resolved: spawn a process with the given arguments
    /// when there are any, then complete the step with its handle.
    Ready { spawn_args: Option<Vec<String>> },
}

/// What completing one load step produced: the loaded definition, a log
/// subscription when a process was started, and the handles whose processes
/// must now be terminated.
pub struct LoadOutcome {
    pub definition: ModelConfig,
    pub receiver: Option<LogsAndTailReceiver>,
    pub terminated: Vec<u64>,
}

impl LoadSession {
    /// A fresh load call for one selector.
    pub fn start(alias_or_index: AliasOrIndex) -> (r: LoadSession)
        ensures
            r.pending.deep_view() == seq![alias_or_index@],
            r.visited.deep_view() == Seq::<Seq<char>>::empty(),
            r.current is None,
    {
        let mut pending: Vec<AliasOrIndex> = Vec::new();
        pending.push(alias_or_index);
        let r = LoadSession { pending, visited: Vec::new(), current: None };
        proof {
            assert(r.pending.deep_view() =~= seq![alias_or_index@]);
            assert(r.visited.deep_view() =~= Seq::<Seq<char>>::empty());
        }
        r
    }

    /// Resolves the next worklist entry. An entry already loaded in this
    /// call is skipped; otherwise the target and its whole unload cascade
    /// must resolve, and the step is handed back ready to run.
    pub fn next_load_step(&mut self, config: &Config) -> (r: Result<LoadStep, ConfigError>)
        requires
            config.wf(),
            old(self).current is None,
        ensures
            final(self).visited == old(self).visited,
            match r {
                Ok(LoadStep::Done) => {
                    &&& old(self).pending@.len() == 0
                    &&& final(self).pending == old(self).pending
                    &&& final(self).current is None
                },
                Ok(LoadStep::Skipped) => {
                    &&& old(self).pending@.len() > 0
                    &&& final(self).pending.deep_view() == old(
                        self,
                    ).pending.deep_view().drop_first()
                    &&& final(self).current is None
                    &&& exists|i: int|
                        0 <= i < config.models@.len() && spec_sel_matches(
                            (#[trigger] config.models@[i])@,
                            i,
                            old(self).pending.deep_view()[0],
                        ) && old(self).visited.deep_view().contains(
                            config.models@[i]@.spec_alias(),
                        )
                },
                Ok(LoadStep::Ready { spawn_args }) => {
                    &&& old(self).pending@.len() > 0
                    &&& final(self).pending.deep_view() == old(
                        self,
                    ).pending.deep_view().drop_first()
                    &&& spec_match_count(
                        config.models@,
                        old(self).pending.deep_view()[0],
                        config.models@.len() as int,
                    ) == 1
                    &&& final(self).current matches Some(t) && {
                        let def = t.definition@;
                        &&& exists|i: int|
                            0 <= i < config.models@.len() && spec_sel_matches(
                                (#[trigger] config.models@[i])@,
                                i,
                                old(self).pending.deep_view()[0],
                            ) && def == config.models@[i]@
                        &&& def.is_resolved()
                        &&& spec_valid_base_url(def.spec_url())
                        &&& !old(self).visited.deep_view().contains(def.spec_alias())
                        &&& match def.unloads {
                            None => t.unload_aliases@.len() == 0,
                            Some(sels) => t.unload_aliases.deep_view().len() == sels.len()
                                && forall|k: int|
                                0 <= k < sels.len() ==> spec_match_count(
                                    config.models@,
                                    #[trigger] sels[k],
                                    config.models@.len() as int,
                                ) == 1 && exists|i2: int|
                                    0 <= i2 < config.models@.len() && spec_sel_matches(
                                        (#[trigger] config.models@[i2])@,
                                        i2,
                                        sels[k],
                                    ) && t.unload_aliases.deep_view()[k]
                                        == config.models@[i2]@.spec_alias()
                        }
                        &&& match def.config {
                            SpecModelTypeConfig::LlamaCpp(x) => spawn_args matches Some(a)
                                && a.deep_view() == spec_spawn_args(x),
                            SpecModelTypeConfig::External(_) => spawn_args is None,
                        }
                    }
                },
                Err(_) => {
                    &&& old(self).pending@.len() > 0
                    &&& final(self).pending.deep_view() == old(
                        self,
                    ).pending.deep_view().drop_first()
                    &&& final(self).current is None
                    &&& {
                        let sel0 = old(self).pending.deep_view()[0];
                        let n = config.models@.len() as int;
                        ||| spec_match_count(config.models@, sel0, n) != 1
                        ||| exists|i: int, k: int|
                            #![trigger config.models@[i]@.unloads->Some_0[k]]
                            {
                                &&& 0 <= i < n
                                &&& spec_sel_matches(config.models@[i]@, i, sel0)
                                &&& config.models@[i]@.unloads is Some
                                &&& 0 <= k < config.models@[i]@.unloads->Some_0.len()
                                &&& spec_match_count(
                                    config.models@,
                                    config.models@[i]@.unloads->Some_0[k],
                                    n,
                                ) != 1
                            }
                    }
                },
            },
    {
        if self.pending.len() == 0 {
            return Ok(LoadStep::Done);
        }
        let ghost pending0 = self.pending.deep_view();
        let sel = self.pending.remove(0);
        proof {
            assert(self.pending.deep_view() =~= pending0.drop_first());
            assert(sel@ == pending0[0]);
        }
        let m = match config.get_model_config(&sel) {
            Ok(m) => m,
            Err(e) => {
                return Err(e);
            }
        };
        let ghost mi = choose|i: int|
            0 <= i < config.models@.len() && spec_sel_matches(
                (#[trigger] config.models@[i])@,
                i,
                sel@,
            ) && m@ == config.models@[i]@;
        // Skip a target already loaded in this call.
        let alias = m.alias();
        let vn = self.visited.len();
        let mut vi: usize = 0;
        while vi < vn
            invariant
                vi <= vn,
                vn == self.visited@.len(),
                alias@ == m@.spec_alias(),
                self.visited == old(self).visited,
                self.current is None,
                old(self).pending@.len() > 0,
                self.pending.deep_view() == old(self).pending.deep_view().drop_first(),
                0 <= mi < config.models@.len(),
                m@ == config.models@[mi]@,
                spec_sel_matches(config.models@[mi]@, mi, old(self).pending.deep_view()[0]),
                forall|j: int| 0 <= j < vi ==> self.visited.deep_view()[j] != alias@,
            decreases vn - vi,
        {
            if crate::text::str_eq(self.visited[vi].as_str(), alias) {
                proof {
                    assert(self.visited.deep_view()[vi as int] == alias@);
                    assert(self.visited.deep_view().contains(m@.spec_alias()));
                    assert(spec_sel_matches(
                        (config.models@[mi])@,
                        mi,
                        old(self).pending.deep_view()[0],
                    ) && old(self).visited.deep_view().contains(
                        config.models@[mi]@.spec_alias(),
                    ));
                }
                return Ok(LoadStep::Skipped);
            }
            vi = vi + 1;
        }
        proof {
            assert(!self.visited.deep_view().contains(m@.spec_alias())) by {
                if self.visited.deep_view().contains(m@.spec_alias()) {
                    let j = choose|j: int|
                        0 <= j < self.visited.deep_view().len() && self.visited.deep_view()[j]
                            == m@.spec_alias();
                    assert(false);
                }
            }
        }
        // The whole unload cascade must resolve before anything changes.
        let mut unload_aliases: Vec<String> = Vec::new();
        match &m.unloads {
            None => {}
            Some(sels) => {
                let un = sels.len();
                let mut k: usize = 0;
                while k < un
                    invariant
                        k <= un,
                        config.wf(),
                        m@ == config.models@[mi]@,
                        0 <= mi < config.models@.len(),
                        spec_sel_matches(
                            config.models@[mi]@,
                            mi,
                            old(self).pending.deep_view()[0],
                        ),
                        self.visited == old(self).visited,
                        self.current is None,
                        old(self).pending@.len() > 0,
                        self.pending.deep_view() == old(self).pending.deep_view().drop_first(),
                        m.unloads matches Some(s2) && s2@ == sels@,
                        un == sels@.len(),
                        m@.unloads matches Some(sv) && sv.len() == un && (forall|j: int|
                            0 <= j < un ==> #[trigger] sv[j] == sels@[j]@),
                        unload_aliases@.len() == k,
                        forall|j: int|
                            0 <= j < k ==> spec_match_count(
                                config.models@,
                                #[trigger] sels.deep_view()[j],
                                config.models@.len() as int,
                            ) == 1 && exists|i2: int|
                                0 <= i2 < config.models@.len() && spec_sel_matches(
                                    (#[trigger] config.models@[i2])@,
                                    i2,
                                    sels.deep_view()[j],
                                ) && unload_aliases.deep_view()[j]
                                    == config.models@[i2]@.spec_alias(),
                    decreases un - k,
                {
                    match config.get_model_config(&sels[k]) {
                        Ok(u) => {
                            unload_aliases.push(u.alias().to_owned());
                        }
                        Err(e) => {
                            proof {
                                assert(m@.unloads matches Some(sv) && sv[k as int] == sels@[
                                    k as int]@);
                                assert(config.models@[mi]@.unloads->Some_0[k as int] == sels@[
                                    k as int]@);
                                assert(spec_match_count(
                                    config.models@,
                                    config.models@[mi]@.unloads->Some_0[k as int],
                                    config.models@.len() as int,
                                ) != 1);
                            }
                            return Err(e);
                        }
                    }
                    k = k + 1;
                }
            }
        }
        // The launch arguments, for a definition that spawns a process.
        let args: Option<Vec<String>> = match &m.config {
            ModelTypeConfig::LlamaCpp(x) => Some(x.spawn_args()),
            ModelTypeConfig::External(_) => None,
        };
        self.current = Some(
            CurrentTarget { definition: m.duplicate(), unload_aliases },
        );
        Ok(LoadStep::Ready { spawn_args: args })
    }
}



/// An entry with a process contributes its handle to the registry.
proof fn lemma_entry_handle(s: Seq<SpecLoadedModel>, b: Seq<char>)
    requires
        spec_entries_wf(s),
        spec_has_alias(s, b),
        spec_entry_for(s, b).spawned is Some,
    ensures
        spec_has_handle(s, spec_entry_for(s, b).spawned->Some_0.handle),
{
    let i = choose|i: int| 0 <= i < s.len() && (#[trigger] s[i]).config.spec_alias() == b;
    lemma_entry_for_at(s, i);
    assert(s[i].spawned matches Some(sp) && sp.handle == spec_entry_for(
        s,
        b,
    ).spawned->Some_0.handle);
}

/// Entries under different aliases never share a process handle.
proof fn lemma_distinct_alias_handles(s: Seq<SpecLoadedModel>, b1: Seq<char>, b2: Seq<char>)
    requires
        spec_entries_wf(s),
        spec_has_alias(s, b1),
        spec_has_alias(s, b2),
        b1 != b2,
        spec_entry_for(s, b1).spawned is Some,
        spec_entry_for(s, b2).spawned is Some,
    ensures
        spec_entry_for(s, b1).spawned->Some_0.handle != spec_entry_for(
            s,
            b2,
        ).spawned->Some_0.handle,
{
    let i1 = choose|i: int| 0 <= i < s.len() && (#[trigger] s[i]).config.spec_alias() == b1;
    let i2 = choose|i: int| 0 <= i < s.len() && (#[trigger] s[i]).config.spec_alias() == b2;
    lemma_entry_for_at(s, i1);
    lemma_entry_for_at(s, i2);
    if i1 < i2 {
        assert(match (s[i1].spawned, s[i2].spawned) {
            (Some(x), Some(y)) => x.handle != y.handle,
            _ => true,
        });
    } else {
        assert(match (s[i2].spawned, s[i1].spawned) {
            (Some(x), Some(y)) => x.handle != y.handle,
            _ => true,
        });
    }
}

/// What appending a fresh entry does to alias and handle lookups.
proof fn lemma_push_effect(s0: Seq<SpecLoadedModel>, s1: Seq<SpecLoadedModel>, e: SpecLoadedModel)
    requires
        spec_entries_wf(s0),
        !spec_has_alias(s0, e.config.spec_alias()),
        e.config.is_resolved(),
        spec_valid_base_url(e.config.spec_url()),
        e.spawned matches Some(sp) ==> !spec_has_handle(s0, sp.handle),
        s1 == s0.push(e),
    ensures
        spec_entries_wf(s1),
        spec_has_alias(s1, e.config.spec_alias()),
        spec_entry_for(s1, e.config.spec_alias()) == e,
        forall|b: Seq<char>|
            b != e.config.spec_alias() ==> #[trigger] spec_has_alias(s1, b) == spec_has_alias(
                s0,
                b,
            ),
        forall|b: Seq<char>|
            b != e.config.spec_alias() && spec_has_alias(s0, b) ==> #[trigger] spec_entry_for(
                s1,
                b,
            ) == spec_entry_for(s0, b),
        forall|h: u64|
            #[trigger] spec_has_handle(s1, h) == (spec_has_handle(s0, h) || (e.spawned
                matches Some(sp) && sp.handle == h)),
{
    let a = e.config.spec_alias();
    let last = s0.len() as int;
    assert(s1.len() == s0.len() + 1);
    assert(s1[last] == e);
    assert(forall|k: int| 0 <= k < s0.len() ==> s1[k] == s0[k]);
    assert(spec_entries_wf(s1)) by {
        assert forall|i: int, j: int| 0 <= i < j < s1.len() implies (#[trigger] s1[i]).config.spec_alias()
            != (#[trigger] s1[j]).config.spec_alias() by {
            if j == last {
                if s1[i].config.spec_alias() == a {
                    assert(spec_has_alias(s0, a));
                }
            }
        }
        assert forall|i: int, j: int| 0 <= i < j < s1.len() implies match (
            (#[trigger] s1[i]).spawned,
            (#[trigger] s1[j]).spawned,
        ) {
            (Some(x), Some(y)) => x.handle != y.handle,
            _ => true,
        } by {
            if j == last {
                match (s1[i].spawned, e.spawned) {
                    (Some(x), Some(y)) => {
                        if x.handle == y.handle {
                            assert(spec_has_handle(s0, y.handle));
                        }
                    }
                    _ => {}
                }
            }
        }
    }
    assert(spec_has_alias(s1, a));
    lemma_entry_for_at(s1, last);
    assert forall|b: Seq<char>| b != a implies #[trigger] spec_has_alias(s1, b) == spec_has_alias(
        s0,
        b,
    ) by {
        if spec_has_alias(s1, b) {
            let k = choose|k: int| 0 <= k < s1.len() && (#[trigger] s1[k]).config.spec_alias() == b;
            assert(k != last);
            assert(s0[k].config.spec_alias() == b);
        }
        if spec_has_alias(s0, b) {
            let k = choose|k: int| 0 <= k < s0.len() && (#[trigger] s0[k]).config.spec_alias() == b;
            assert(s1[k].config.spec_alias() == b);
        }
    }
    assert forall|b: Seq<char>| b != a && spec_has_alias(s0, b) implies #[trigger] spec_entry_for(
        s1,
        b,
    ) == spec_entry_for(s0, b) by {
        let k = choose|k: int| 0 <= k < s0.len() && (#[trigger] s0[k]).config.spec_alias() == b;
        lemma_entry_for_at(s0, k);
        lemma_entry_for_at(s1, k);
    }
    assert forall|h: u64| #[trigger] spec_has_handle(s1, h) == (spec_has_handle(s0, h) || (
    e.spawned matches Some(sp) && sp.handle == h)) by {
        if spec_has_handle(s1, h) {
            let k = choose|k: int|
                0 <= k < s1.len() && ((#[trigger] s1[k]).spawned matches Some(sp) && sp.handle
                    == h);
            if k != last {
                assert(s0[k].spawned matches Some(sp) && sp.handle == h);
                assert(spec_has_handle(s0, h));
            }
        }
        if spec_has_handle(s0, h) {
            let k = choose|k: int|
                0 <= k < s0.len() && ((#[trigger] s0[k]).spawned matches Some(sp) && sp.handle
                    == h);
            assert(s1[k].spawned matches Some(sp) && sp.handle == h);
            assert(spec_has_handle(s1, h));
        }
        if e.spawned matches Some(sp) && sp.handle == h {
            assert(s1[last].spawned matches Some(sp2) && sp2.handle == h);
            assert(spec_has_handle(s1, h));
        }
    }
}

/// Whether `b` is among the first `k` cascade-unload aliases.
pub open spec fn spec_removed_by(ua: Seq<Seq<char>>, k: int, b: Seq<char>) -> bool {
    exists|k2: int| 0 <= k2 < k && ua[k2] == b
}

impl Models {
    /// Completes the load step that `next_load_step` prepared: registers the
    /// definition under its alias — replacing and reporting any process that
    /// was loaded there — removes the aliases of its unload cascade, queues
    /// its load cascade, and hands back the definition, a log subscription
    /// for a newly spawned process, and every handle whose process must now
    /// be terminated.
    pub fn finish_load_step(
        &mut self,
        session: &mut LoadSession,
        spawned: Option<u64>,
    ) -> (r: LoadOutcome)
        requires
            old(self).wf(),
            old(session).current matches Some(t) && {
                &&& t.definition@.is_resolved()
                &&& spec_valid_base_url(t.definition@.spec_url())
                &&& ((spawned is Some) <==> t.definition@.config is LlamaCpp)
                &&& (spawned matches Some(h) ==> !spec_has_handle(old(self).entries(), h))
            },
        ensures
            ({
                let t = old(session).current->Some_0;
                let def = t.definition@;
                let a = def.spec_alias();
                let ua = t.unload_aliases.deep_view();
                &&& final(self).wf()
                &&& spec_has_alias(final(self).entries(), a)
                &&& spec_entry_for(final(self).entries(), a) == SpecLoadedModel {
                    config: def,
                    spawned: match spawned {
                        Some(h) => Some(SpecSpawned { handle: h, logs: Seq::empty() }),
                        None => None,
                    },
                }
                &&& forall|b: Seq<char>|
                    b != a ==> #[trigger] spec_has_alias(final(self).entries(), b) == (
                    spec_has_alias(old(self).entries(), b) && !ua.contains(b))
                &&& forall|b: Seq<char>|
                    b != a && !ua.contains(b) && spec_has_alias(old(self).entries(), b)
                        ==> #[trigger] spec_entry_for(final(self).entries(), b) == spec_entry_for(
                        old(self).entries(),
                        b,
                    )
                &&& forall|h: u64|
                    #[trigger] r.terminated@.contains(h) == (spec_has_handle(
                        old(self).entries(),
                        h,
                    ) && !spec_has_handle(final(self).entries(), h))
                &&& r.definition@ == def
                &&& match spawned {
                    Some(h) => r.receiver matches Some(x) && x.tail_receiver.handle == h
                        && x.tail_receiver.pos == 0 && x.logs@.len() == 0,
                    None => r.receiver is None,
                }
                &&& final(session).current is None
                &&& final(session).visited.deep_view() == old(
                    session,
                ).visited.deep_view().push(a)
                &&& final(session).pending.deep_view() == (match def.loads {
                    Some(l) => l,
                    None => Seq::empty(),
                }) + old(session).pending.deep_view()
            }),
    {
        let ghost s_orig = self.entries();
        let t = match session.current.take() {
            Some(t) => t,
            None => {
                proof {
                    assert(false);
                }
                unreached()
            }
        };
        let def = t.definition;
        let unload_aliases = t.unload_aliases;
        let ghost ua = unload_aliases.deep_view();
        let ghost a = def@.spec_alias();
        let alias_owned: String = def.alias().to_owned();
        let outcome_def = def.duplicate();
        let mut terminated: Vec<u64> = Vec::new();
        // Replace whatever was loaded under this alias; its process dies.
        match self.remove_alias(alias_owned.as_str()) {
            Some(e) => {
                match e.spawned {
                    Some(sp) => {
                        terminated.push(sp.handle);
                        assert(terminated@[0] == sp.handle);
                    }
                    None => {}
                }
            }
            None => {}
        }
        let ghost s1 = self.entries();
        let spawned_state: Option<Spawned> = match spawned {
            Some(h) => {
                let v: Vec<Log> = Vec::new();
                proof {
                    assert(v.deep_view() =~= Seq::<SpecLog>::empty());
                }
                Some(Spawned { handle: h, logs: v })
            }
            None => None,
        };
        let receiver: Option<LogsAndTailReceiver> = match spawned {
            Some(h) => Some(
                LogsAndTailReceiver {
                    tail_receiver: TailReceiver { handle: h, pos: 0 },
                    logs: Vec::new(),
                },
            ),
            None => None,
        };
        let entry = LoadedModel { config: def, spawned: spawned_state };
        let ghost espec = entry@;
        proof {
            assert(espec.config == old(session).current->Some_0.definition@);
            assert(espec.spawned == match spawned {
                Some(h) => Some(SpecSpawned { handle: h, logs: Seq::<SpecLog>::empty() }),
                None => None::<SpecSpawned>,
            });
        }
        self.loaded.push(entry);
        proof {
            assert(self.entries() =~= s1.push(espec));
            assert(espec.spawned matches Some(sp) ==> !spec_has_handle(s1, sp.handle));
            lemma_push_effect(s1, self.entries(), espec);
            assert forall|h: u64| #[trigger] terminated@.contains(h) == (spec_has_handle(
                s_orig,
                h,
            ) && !spec_has_handle(self.entries(), h)) by {
                if terminated@.contains(h) {
                    let k = choose|k: int| 0 <= k < terminated@.len() && terminated@[k] == h;
                    assert(k == 0);
                }
            }
            assert forall|h: u64| #[trigger] spec_has_handle(self.entries(), h) implies (
            spec_has_handle(s_orig, h) || (espec.spawned matches Some(sn) && sn.handle == h)) by {
                assert(spec_has_handle(self.entries(), h) == (spec_has_handle(s1, h) || (
                espec.spawned matches Some(sn2) && sn2.handle == h)));
            }
        }
        let ghost s2 = self.entries();
        // The unload cascade: remove each named alias except the target's
        // own, and report the handles of the processes torn down.
        let un = unload_aliases.len();
        let mut k: usize = 0;
        while k < un
            invariant
                k <= un,
                un == ua.len(),
                ua == unload_aliases.deep_view(),
                un == unload_aliases@.len(),
                self.wf(),
                alias_owned@ == a,
                espec.config.spec_alias() == a,
                spec_has_alias(self.entries(), a),
                spec_entry_for(self.entries(), a) == espec,
                spec_entry_for(s2, a) == espec,
                spec_entries_wf(s2),
                spec_has_alias(s2, a),
                forall|b: Seq<char>|
                    b != a ==> #[trigger] spec_has_alias(self.entries(), b) == (spec_has_alias(
                        s2,
                        b,
                    ) && !spec_removed_by(ua, k as int, b)),
                forall|b: Seq<char>|
                    b != a && spec_has_alias(self.entries(), b) ==> #[trigger] spec_entry_for(
                        self.entries(),
                        b,
                    ) == spec_entry_for(s2, b),
                forall|h: u64|
                    #[trigger] terminated@.contains(h) == (spec_has_handle(s_orig, h)
                        && !spec_has_handle(self.entries(), h)),
                forall|h: u64|
                    #[trigger] spec_has_handle(self.entries(), h) ==> (spec_has_handle(s_orig, h)
                        || (espec.spawned matches Some(sn) && sn.handle == h)),
            decreases un - k,
        {
            if !crate::text::str_eq(unload_aliases[k].as_str(), alias_owned.as_str()) {
                let ghost pre = self.entries();
                let ghost term0 = terminated@;
                let ghost uak = ua[k as int];
                match self.remove_alias(unload_aliases[k].as_str()) {
                    Some(e) => {
                        proof {
                            assert(e@ == spec_entry_for(pre, uak));
                        }
                        match e.spawned {
                            Some(sp) => {
                                proof {
                                    lemma_entry_handle(pre, uak);
                                    assert(spec_has_handle(pre, sp.handle));
                                    if espec.spawned matches Some(sn) && sn.handle == sp.handle {
                                        lemma_distinct_alias_handles(pre, a, uak);
                                        assert(false);
                                    }
                                    assert(spec_has_handle(s_orig, sp.handle));
                                }
                                terminated.push(sp.handle);
                                proof {
                                    assert forall|h: u64| #[trigger] terminated@.contains(h) == (
                                    term0.contains(h) || h == sp.handle) by {
                                        if terminated@.contains(h) {
                                            let j = choose|j: int|
                                                0 <= j < terminated@.len() && terminated@[j] == h;
                                            if j < term0.len() {
                                                assert(term0[j] == h);
                                            }
                                        }
                                        if term0.contains(h) {
                                            let j = choose|j: int|
                                                0 <= j < term0.len() && term0[j] == h;
                                            assert(terminated@[j] == h);
                                        }
                                        if h == sp.handle {
                                            assert(terminated@[terminated@.len() - 1] == h);
                                        }
                                    }
                                    assert forall|h: u64| #[trigger] terminated@.contains(h) == (
                                    spec_has_handle(s_orig, h) && !spec_has_handle(
                                        self.entries(),
                                        h,
                                    )) by {
                                        assert(spec_has_handle(self.entries(), h)
                                            == (spec_has_handle(pre, h) && !(e@.spawned
                                            matches Some(spx) && spx.handle == h)));
                                        if h == sp.handle {
                                            assert(!spec_has_handle(self.entries(), h));
                                        } else {
                                            assert(terminated@.contains(h) == term0.contains(h));
                                        }
                                    }
                                }
                            }
                            None => {}
                        }
                    }
                    None => {}
                }
                proof {
                    assert forall|b: Seq<char>|
                        b != a implies #[trigger] spec_has_alias(self.entries(), b) == (
                    spec_has_alias(s2, b) && !spec_removed_by(ua, k + 1, b)) by {
                        if b == uak {
                            assert(!spec_has_alias(self.entries(), b));
                            assert(spec_removed_by(ua, k + 1, b)) by {
                                assert(ua[k as int] == b);
                            }
                        } else {
                            assert(spec_has_alias(self.entries(), b) == spec_has_alias(pre, b));
                            if spec_removed_by(ua, k + 1, b) && !spec_removed_by(ua, k as int, b) {
                                let k2 = choose|k2: int| 0 <= k2 < k + 1 && ua[k2] == b;
                                assert(k2 == k);
                                assert(false);
                            }
                            if spec_removed_by(ua, k as int, b) {
                                assert(spec_removed_by(ua, k + 1, b));
                            }
                        }
                    }
                }
            } else {
                proof {
                    assert forall|b: Seq<char>|
                        b != a implies #[trigger] spec_has_alias(self.entries(), b) == (
                    spec_has_alias(s2, b) && !spec_removed_by(ua, k + 1, b)) by {
                        if spec_removed_by(ua, k + 1, b) && !spec_removed_by(ua, k as int, b) {
                            assert(ua[k as int] == b);
                            assert(false);
                        }
                        if spec_removed_by(ua, k as int, b) {
                            assert(spec_removed_by(ua, k + 1, b));
                        }
                    }
                }
            }
            k = k + 1;
        }
        proof {
            assert forall|b: Seq<char>| b != a implies #[trigger] spec_has_alias(
                self.entries(),
                b,
            ) == (spec_has_alias(s_orig, b) && !ua.contains(b)) by {
                assert(spec_has_alias(self.entries(), b) == (spec_has_alias(s2, b)
                    && !spec_removed_by(ua, un as int, b)));
                if ua.contains(b) {
                    let k2 = choose|k2: int| 0 <= k2 < ua.len() && ua[k2] == b;
                    assert(spec_removed_by(ua, un as int, b));
                }
                if spec_removed_by(ua, un as int, b) {
                    assert(ua.contains(b));
                }
            }
        }
        // Queue the load cascade ahead of whatever else was pending.
        let mut queued: Vec<AliasOrIndex> = Vec::new();
        match &outcome_def.loads {
            None => {}
            Some(l) => {
                let ln = l.len();
                let mut li: usize = 0;
                while li < ln
                    invariant
                        li <= ln,
                        ln == l@.len(),
                        queued@.len() == li,
                        forall|j: int| 0 <= j < li ==> #[trigger] queued@[j]@ == l@[j]@,
                    decreases ln - li,
                {
                    queued.push(l[li].duplicate());
                    li = li + 1;
                }
            }
        }
        proof {
            assert(queued.deep_view() =~= match outcome_def@.loads {
                Some(l) => l,
                None => Seq::<crate::config::SpecAliasOrIndex>::empty(),
            });
        }
        let ghost pending0 = session.pending.deep_view();
        queued.append(&mut session.pending);
        session.pending = queued;
        session.visited.push(alias_owned);
        proof {
            assert(session.pending.deep_view() =~= (match old(
                session,
            ).current->Some_0.definition@.loads {
                Some(l) => l,
                None => Seq::<crate::config::SpecAliasOrIndex>::empty(),
            }) + pending0);
            assert(session.visited.deep_view() =~= old(session).visited.deep_view().push(a));
        }
        LoadOutcome { definition: outcome_def, receiver, terminated }
    }
}


/// For every alias a completed load step has put in the registry, what the
/// registry serves under that alias afterwards is that very definition: in
/// particular its backend identifier is the configuration's. The premises
/// are exactly what `finish_load_step` ensures of its target, and the
/// conclusion is what `get_loaded_config` hands out.
pub proof fn lemma_load_then_get(
    m: Models,
    def: SpecModelConfig,
    sp: Option<SpecSpawned>,
)
    requires
        m.wf(),
        spec_has_alias(m.entries(), def.spec_alias()),
        (spec_entry_for(m.entries(), def.spec_alias()) == SpecLoadedModel {
            config: def,
            spawned: sp,
        }),
    ensures
        spec_entry_for(m.entries(), def.spec_alias()).config == def,
        spec_entry_for(m.entries(), def.spec_alias()).config.spec_id() == def.spec_id(),
{
}

/// Loading the same alias twice in succession hands the first process over
/// for termination: after the second step, the handle the alias held before
/// it is no longer registered and stands among the handles to terminate; and
/// registry well-formedness keeps at most one process per alias throughout.
///
/// The two states are related exactly as `finish_load_step` relates its
/// before- and after-state; `terminated` is the second step's report.
pub proof fn lemma_reload_terminates_previous(
    s0: Seq<SpecLoadedModel>,
    s1: Seq<SpecLoadedModel>,
    terminated: Seq<u64>,
    def: SpecModelConfig,
    h1: u64,
    h2: u64,
    ua: Seq<Seq<char>>,
)
    requires
        spec_entries_wf(s0),
        spec_entries_wf(s1),
        // the alias held a process before the second step
        spec_has_alias(s0, def.spec_alias()),
        (spec_entry_for(s0, def.spec_alias()).spawned matches Some(sp) && sp.handle == h1),
        // the second step spawned a fresh process
        !spec_has_handle(s0, h2),
        // how the second step left the registry
        spec_has_alias(s1, def.spec_alias()),
        (spec_entry_for(s1, def.spec_alias()) == SpecLoadedModel {
            config: def,
            spawned: Some(SpecSpawned { handle: h2, logs: Seq::empty() }),
        }),
        forall|b: Seq<char>|
            b != def.spec_alias() ==> #[trigger] spec_has_alias(s1, b) == (spec_has_alias(s0, b)
                && !ua.contains(b)),
        forall|b: Seq<char>|
            b != def.spec_alias() && !ua.contains(b) && spec_has_alias(s0, b)
                ==> #[trigger] spec_entry_for(s1, b) == spec_entry_for(s0, b),
        forall|h: u64|
            #[trigger] terminated.contains(h) == (spec_has_handle(s0, h) && !spec_has_handle(
                s1,
                h,
            )),
    ensures
        terminated.contains(h1),
        !spec_has_handle(s1, h1),
{
    let a = def.spec_alias();
    lemma_entry_handle(s0, a);
    assert(spec_has_handle(s0, h1));
    assert(h2 != h1);
    assert(!spec_has_handle(s1, h1)) by {
        if spec_has_handle(s1, h1) {
            let k = choose|k: int|
                0 <= k < s1.len() && ((#[trigger] s1[k]).spawned matches Some(sp) && sp.handle
                    == h1);
            let b = s1[k].config.spec_alias();
            lemma_entry_for_at(s1, k);
            if b == a {
                assert(s1[k].spawned->Some_0.handle == h2);
            } else {
                assert(spec_has_alias(s1, b));
                assert(spec_has_alias(s0, b) && !ua.contains(b));
                assert(spec_entry_for(s0, b) == s1[k]);
                lemma_distinct_alias_handles(s0, a, b);
            }
        }
    }
}

/// A cascade load with `loads: [B]` and `unloads: [C]` on definition A: once
/// A's step and then B's step complete, B is loaded and C is not — provided
/// C is neither A itself, which a definition never unloads, nor B, which the
/// cascade loads afterwards.
///
/// The states are related exactly as `finish_load_step` relates its before-
/// and after-state for the step on A (with unload aliases `ua`) and then the
/// step on B (with none).
pub proof fn lemma_cascade_load_unload(
    s0: Seq<SpecLoadedModel>,
    s1: Seq<SpecLoadedModel>,
    s2: Seq<SpecLoadedModel>,
    a: Seq<char>,
    b: Seq<char>,
    c: Seq<char>,
    ua: Seq<Seq<char>>,
)
    requires
        c != a,
        c != b,
        ua.contains(c),
        // A's step: a present afterwards, c removed
        spec_has_alias(s1, a),
        forall|x: Seq<char>|
            x != a ==> #[trigger] spec_has_alias(s1, x) == (spec_has_alias(s0, x) && !ua.contains(
                x,
            )),
        // B's step: b present afterwards, nothing else touched
        spec_has_alias(s2, b),
        forall|x: Seq<char>|
            x != b ==> #[trigger] spec_has_alias(s2, x) == spec_has_alias(s1, x),
    ensures
        spec_has_alias(s2, b),
        !spec_has_alias(s2, c),
        a == b || spec_has_alias(s2, a),
{
    assert(!spec_has_alias(s1, c));
    assert(!spec_has_alias(s2, c));
    if a != b {
        assert(spec_has_alias(s2, a));
    }
}

/// Two loads for distinct aliases whose cascades touch neither the other's
/// alias nor a common third alias are independent: whichever order their
/// steps run in, the same aliases end up loaded. The step relations are
/// those of `finish_load_step`.
pub proof fn lemma_distinct_loads_commute(
    s0: Seq<SpecLoadedModel>,
    s1: Seq<SpecLoadedModel>,
    s2: Seq<SpecLoadedModel>,
    r1: Seq<SpecLoadedModel>,
    r2: Seq<SpecLoadedModel>,
    a: Seq<char>,
    b: Seq<char>,
    ua: Seq<Seq<char>>,
    ub: Seq<Seq<char>>,
)
    requires
        a != b,
        !ua.contains(b),
        !ub.contains(a),
        // one order: the step for a, then the step for b
        spec_has_alias(s1, a),
        forall|x: Seq<char>|
            x != a ==> #[trigger] spec_has_alias(s1, x) == (spec_has_alias(s0, x) && !ua.contains(
                x,
            )),
        spec_has_alias(s2, b),
        forall|x: Seq<char>|
            x != b ==> #[trigger] spec_has_alias(s2, x) == (spec_has_alias(s1, x) && !ub.contains(
                x,
            )),
        // the other order: the step for b, then the step for a
        spec_has_alias(r1, b),
        forall|x: Seq<char>|
            x != b ==> #[trigger] spec_has_alias(r1, x) == (spec_has_alias(s0, x) && !ub.contains(
                x,
            )),
        spec_has_alias(r2, a),
        forall|x: Seq<char>|
            x != a ==> #[trigger] spec_has_alias(r2, x) == (spec_has_alias(r1, x) && !ua.contains(
                x,
            )),
    ensures
        forall|x: Seq<char>| #[trigger] spec_has_alias(s2, x) == spec_has_alias(r2, x),
{
    assert forall|x: Seq<char>| #[trigger] spec_has_alias(s2, x) == spec_has_alias(r2, x) by {
        if x == a {
            assert(spec_has_alias(s2, a) == (spec_has_alias(s1, a) && !ub.contains(a)));
        } else if x == b {
            assert(spec_has_alias(r2, b) == (spec_has_alias(r1, b) && !ua.contains(b)));
        }
    }
}

/// Entries delivered to one subscriber arrive in capture order and never
/// interleave out of order: two successive polls hand out adjacent,
/// non-overlapping stretches of the history, and together they are exactly
/// the history between the first cursor and the end — the order the capture
/// loop appended in, across both streams of the process.
pub proof fn lemma_tail_delivery_in_order(logs: Seq<SpecLog>, p0: int, l1: int, l2: int)
    requires
        0 <= p0 <= l1 <= l2 <= logs.len(),
    ensures
        logs.subrange(p0, l1) + logs.subrange(l1, l2) =~= logs.subrange(p0, l2),
{
}


/// Formatting a log entry as a plain line loses nothing: two entries with
/// the same line are the same entry.
pub proof fn lemma_plain_line_lossless(l1: SpecLog, l2: SpecLog)
    requires
        spec_plain_line(l1) == spec_plain_line(l2),
    ensures
        l1 == l2,
{
    reveal_strlit("StdOut");
    reveal_strlit("StdErr");
    reveal_strlit(" - ");
    let t1 = l1.stream_tag();
    let t2 = l2.stream_tag();
    let d1 = spec_dec_i64(l1.entry().timestamp as int);
    let d2 = spec_dec_i64(l2.entry().timestamp as int);
    let m1 = l1.entry().message;
    let m2 = l2.entry().message;
    assert(t1.len() == 6 && t2.len() == 6);
    assert(spec_plain_line(l1) =~= t1 + (" - "@ + (d1 + (" - "@ + m1))));
    assert(spec_plain_line(l2) =~= t2 + (" - "@ + (d2 + (" - "@ + m2))));
    crate::text::lemma_prefix_split(
        t1,
        " - "@ + (d1 + (" - "@ + m1)),
        t2,
        " - "@ + (d2 + (" - "@ + m2)),
    );
    assert(t1 == t2);
    crate::text::lemma_prefix_split(" - "@, d1 + (" - "@ + m1), " - "@, d2 + (" - "@ + m2));
    assert((" - "@ + m1).len() > 0 && (" - "@ + m1)[0] == ' ');
    assert((" - "@ + m2).len() > 0 && (" - "@ + m2)[0] == ' ');
    crate::text::lemma_number_prefix_split(
        l1.entry().timestamp as int,
        l2.entry().timestamp as int,
        " - "@ + m1,
        " - "@ + m2,
        ' ',
    );
    crate::text::lemma_prefix_split(" - "@, m1, " - "@, m2);
    assert(l1.entry().timestamp == l2.entry().timestamp);
    assert(m1 == m2);
    assert(l1.entry() =~= l2.entry());
    match (l1, l2) {
        (SpecLog::StdOut(a), SpecLog::StdOut(b)) => {
            assert(a =~= b);
        }
        (SpecLog::StdErr(a), SpecLog::StdErr(b)) => {
            assert(a =~= b);
        }
        (SpecLog::StdOut(_), SpecLog::StdErr(_)) => {
            assert(t1[3] == 'O' && t2[3] == 'E');
            assert(false);
        }
        (SpecLog::StdErr(_), SpecLog::StdOut(_)) => {
            assert(t1[3] == 'E' && t2[3] == 'O');
            assert(false);
        }
    }
}

/// Formatting a log entry as a structured line loses nothing either: the
/// same object text can only come from the same entry.
#[verifier::rlimit(60)]
pub proof fn lemma_json_line_lossless(l1: SpecLog, l2: SpecLog)
    requires
        spec_json_line(l1) == spec_json_line(l2),
    ensures
        l1 == l2,
{
    reveal_strlit("StdOut");
    reveal_strlit("StdErr");
    reveal_strlit("stream");
    reveal_strlit("timestamp");
    reveal_strlit("message");
    reveal_strlit(",\"message\":\"");
    reveal_strlit("{\"stream\":\"");
    reveal_strlit("\"}");
    lemma_json_line_shape(l1);
    lemma_json_line_shape(l2);
    let t1 = l1.stream_tag();
    let t2 = l2.stream_tag();
    let d1 = spec_dec_i64(l1.entry().timestamp as int);
    let d2 = spec_dec_i64(l2.entry().timestamp as int);
    let e1 = crate::json::spec_escape(l1.entry().message);
    let e2 = crate::json::spec_escape(l2.entry().message);
    let head1 = spec_json_head(t1);
    let head2 = spec_json_head(t2);
    assert(head1.len() == head2.len()) by {
        assert(t1.len() == 6 && t2.len() == 6);
    }
    crate::text::lemma_prefix_split(
        head1,
        d1 + (spec_json_mid() + (e1 + "\"}"@)),
        head2,
        d2 + (spec_json_mid() + (e2 + "\"}"@)),
    );
    assert(head1 == head2);
    assert(t1 == t2) by {
        reveal_strlit("{\"stream\":\"");
        assert(t1 =~= head1.subrange(11, 17));
        assert(t2 =~= head2.subrange(11, 17));
    }
    assert((spec_json_mid() + (e1 + "\"}"@))[0] == ',') by {
        reveal_strlit(",\"message\":\"");
    }
    assert((spec_json_mid() + (e2 + "\"}"@))[0] == ',') by {
        reveal_strlit(",\"message\":\"");
    }
    crate::text::lemma_number_prefix_split(
        l1.entry().timestamp as int,
        l2.entry().timestamp as int,
        spec_json_mid() + (e1 + "\"}"@),
        spec_json_mid() + (e2 + "\"}"@),
        ',',
    );
    crate::text::lemma_prefix_split(spec_json_mid(), e1 + "\"}"@, spec_json_mid(), e2 + "\"}"@);
    assert(e1.len() == e2.len()) by {
        reveal_strlit("\"}");
        assert((e1 + "\"}"@).len() == (e2 + "\"}"@).len());
    }
    crate::text::lemma_prefix_split(e1, "\"}"@, e2, "\"}"@);
    crate::json::lemma_escape_injective(l1.entry().message, l2.entry().message);
    assert(l1.entry().timestamp == l2.entry().timestamp);
    assert(l1.entry() =~= l2.entry());
    match (l1, l2) {
        (SpecLog::StdOut(a), SpecLog::StdOut(b)) => {
            assert(a =~= b);
        }
        (SpecLog::StdErr(a), SpecLog::StdErr(b)) => {
            assert(a =~= b);
        }
        (SpecLog::StdOut(_), SpecLog::StdErr(_)) => {
            assert(t1[3] == 'O' && t2[3] == 'E');
            assert(false);
        }
        (SpecLog::StdErr(_), SpecLog::StdOut(_)) => {
            assert(t1[3] == 'E' && t2[3] == 'O');
            assert(false);
        }
    }
}

/// The fixed text up to and including the opening quote of the tag, the
/// tag, and the fixed text up to the timestamp value.
pub open spec fn spec_json_head(tag: Seq<char>) -> Seq<char> {
    "{\"stream\":\""@ + tag + "\",\"timestamp\":"@
}

/// The fixed text between the timestamp value and the message contents.
pub open spec fn spec_json_mid() -> Seq<char> {
    ",\"message\":\""@
}

/// A structured log line decomposes into its fixed and varying parts.
#[verifier::rlimit(100)]
proof fn lemma_json_line_shape(l: SpecLog)
    ensures
        spec_json_line(l) == spec_json_head(l.stream_tag()) + (spec_dec_i64(
            l.entry().timestamp as int,
        ) + (spec_json_mid() + (crate::json::spec_escape(l.entry().message) + "\"}"@))),
        spec_json_head(l.stream_tag()).len() == 31,
{
    reveal_strlit("{\"stream\":\"");
    reveal_strlit("\",\"timestamp\":");
    reveal_strlit(",\"message\":\"");
    reveal_strlit("\"}");
    reveal_strlit("stream");
    reveal_strlit("timestamp");
    reveal_strlit("message");
    reveal_strlit("StdOut");
    reveal_strlit("StdErr");
    let p = spec_log_json(l)->Obj_0;
    let tag = l.stream_tag();
    let dec = spec_dec_i64(l.entry().timestamp as int);
    let msg = l.entry().message;
    assert(p.len() == 3);
    assert(p[0] == ("stream"@, SpecJson::Str(tag)));
    assert(p[1] == ("timestamp"@, SpecJson::Num(dec)));
    assert(p[2] == ("message"@, SpecJson::Str(msg)));
    crate::json::lemma_tag_plain(tag);
    crate::json::lemma_key_plain();
    assert(spec_render_pairs(p, 1) == spec_quote("stream"@) + seq![':'] + spec_render(
        SpecJson::Str(tag),
    ));
    assert(spec_render_pairs(p, 2) == spec_render_pairs(p, 1) + seq![','] + spec_quote(
        "timestamp"@,
    ) + seq![':'] + spec_render(SpecJson::Num(dec)));
    assert(spec_render_pairs(p, 3) == spec_render_pairs(p, 2) + seq![','] + spec_quote(
        "message"@,
    ) + seq![':'] + spec_render(SpecJson::Str(msg)));
    assert(spec_json_line(l) == seq!['{'] + spec_render_pairs(p, 3) + seq!['}']);
    assert(tag.len() == 6);
    assert("{\"stream\":\""@ =~= seq!['{'] + spec_quote("stream"@) + seq![':'] + seq!['"']);
    assert("\",\"timestamp\":"@ =~= seq!['"'] + seq![','] + spec_quote("timestamp"@) + seq![':']);
    assert(spec_json_mid() =~= seq![','] + spec_quote("message"@) + seq![':'] + seq!['"']);
    assert("\"}"@ =~= seq!['"'] + seq!['}']);
    assert(spec_render(SpecJson::Str(tag)) =~= seq!['"'] + tag + seq!['"']);
    assert(spec_render(SpecJson::Str(msg)) == spec_quote(msg));
    assert(seq!['{'] + spec_render_pairs(p, 1) =~= "{\"stream\":\""@ + tag + seq!['"']);
    assert(seq!['{'] + spec_render_pairs(p, 2) =~= spec_json_head(tag) + dec);
    assert(seq!['{'] + spec_render_pairs(p, 3) =~= spec_json_head(tag) + dec + spec_json_mid()
        + crate::json::spec_escape(msg) + seq!['"']);
    assert(spec_json_line(l) =~= (seq!['{'] + spec_render_pairs(p, 3)) + seq!['}']);
    assert(spec_json_line(l) =~= (spec_json_head(tag) + dec + spec_json_mid()
        + crate::json::spec_escape(msg) + seq!['"']) + seq!['}']);
    assert(crate::json::spec_escape(msg) + "\"}"@ =~= (crate::json::spec_escape(msg)
        + seq!['"']) + seq!['}']);
    assert(spec_json_mid() + (crate::json::spec_escape(msg) + "\"}"@) =~= ((spec_json_mid()
        + crate::json::spec_escape(msg)) + seq!['"']) + seq!['}']);
    assert(dec + (spec_json_mid() + (crate::json::spec_escape(msg) + "\"}"@)) =~= (((dec
        + spec_json_mid()) + crate::json::spec_escape(msg)) + seq!['"']) + seq!['}']);
    assert((((spec_json_head(tag) + dec + spec_json_mid() + crate::json::spec_escape(msg))
        + seq!['"']) + seq!['}']) =~= spec_json_head(tag) + ((((dec + spec_json_mid())
        + crate::json::spec_escape(msg)) + seq!['"']) + seq!['}']));
    let tailseq = crate::json::spec_escape(msg) + "\"}"@;
    let w = (((dec + spec_json_mid()) + crate::json::spec_escape(msg)) + seq!['"']) + seq!['}'];
    assert(dec + (spec_json_mid() + tailseq) == w);
    assert(spec_json_head(tag) + (dec + (spec_json_mid() + tailseq)) == spec_json_head(tag) + w);
    assert(seq!['{'] + spec_render_pairs(p, 3) == spec_json_head(tag) + dec + spec_json_mid()
        + crate::json::spec_escape(msg) + seq!['"']);
    assert(spec_json_line(l) == (spec_json_head(tag) + dec + spec_json_mid()
        + crate::json::spec_escape(msg) + seq!['"']) + seq!['}']);
    assert((spec_json_head(tag) + dec + spec_json_mid() + crate::json::spec_escape(msg)
        + seq!['"']) + seq!['}'] =~= spec_json_head(tag) + w);
    assert(spec_json_line(l) == spec_json_head(tag) + w);
    assert(spec_json_line(l) == spec_json_head(tag) + (dec + (spec_json_mid() + tailseq)));
    assert(spec_json_head(tag).len() == 31);
}

} // verus!
