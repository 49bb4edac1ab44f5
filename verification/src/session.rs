//! The session: the top-level registry mapping a voice's tag set to its
//! scheduler and shared playback state, with start, stop, hot replacement
//! and clearing across all concurrently playing voices.

use vstd::prelude::*;
use crate::generator::{cursor_wf, GenView, Generator};
use crate::markov::PROB_ONE;
use crate::scheduler::{
    data_wf, tick_post, trigger_views, SchedDataView, Scheduler, SchedulerData, SchedulerState,
    TriggerCommand,
};

verus! {

/// How output channels are laid out.
#[derive(Clone, Copy, PartialEq, Eq, Structural, Debug)]
pub enum OutputMode {
    Stereo,
    FourChannel,
    EightChannel,
}

/// A synchronisation context: voices defined together, started in sync.
pub struct SyncContext {
    /// The context's name.
    pub name: String,
    /// Names of contexts this one is synchronised with.
    pub synced: Vec<String>,
    /// The voices the context defines.
    pub generators: Vec<Generator>,
}

/// One running voice: its tag set, its scheduler, and the playback state
/// the scheduler's timer and the session share.
pub struct SessionEntry {
    /// The tag set identifying the voice.
    pub tags: Vec<String>,
    /// The voice's lifecycle.
    pub scheduler: Scheduler,
    /// The voice's shared playback state.
    pub data: SchedulerData,
}

/// Mathematical shape of a running voice.
#[verifier::ext_equal]
pub struct EntryView {
    pub tags: Seq<Seq<char>>,
    pub state: SchedulerState,
    pub data: SchedDataView,
}

impl View for SessionEntry {
    type V = EntryView;

    open spec fn view(&self) -> EntryView {
        EntryView {
            tags: self.tags@.map_values(|s: String| s@),
            state: self.scheduler.state,
            data: self.data@,
        }
    }
}

/// The session registry.
pub struct Session {
    schedulers: Vec<SessionEntry>,
    output_mode: OutputMode,
}

/// Mathematical shape of the session registry.
#[verifier::ext_equal]
pub struct SessionView {
    pub entries: Seq<EntryView>,
    pub output_mode: OutputMode,
}

impl View for Session {
    type V = SessionView;

    closed spec fn view(&self) -> SessionView {
        SessionView {
            entries: Seq::new(self.schedulers@.len(), |i: int| self.schedulers@[i]@),
            output_mode: self.output_mode,
        }
    }
}

/// The views of a list of tags.
pub open spec fn tag_views(tags: Seq<String>) -> Seq<Seq<char>> {
    tags.map_values(|s: String| s@)
}

/// Every tag of `a` occurs in `b`.
pub open spec fn tags_subset(a: Seq<Seq<char>>, b: Seq<Seq<char>>) -> bool {
    forall|i: int| 0 <= i < a.len() ==> b.contains(#[trigger] a[i])
}

/// Two tag lists name the same tag set.
pub open spec fn same_tags(a: Seq<Seq<char>>, b: Seq<Seq<char>>) -> bool {
    tags_subset(a, b) && tags_subset(b, a)
}

/// Index of the first voice whose tag set is `tags`, or -1.
pub open spec fn find_voice(entries: Seq<EntryView>, tags: Seq<Seq<char>>) -> int
    decreases entries.len(),
{
    if entries.len() == 0 {
        -1
    } else if same_tags(entries[0].tags, tags) {
        0
    } else {
        let r = find_voice(entries.drop_first(), tags);
        if r < 0 {
            -1
        } else {
            r + 1
        }
    }
}

/// The registry is sound: no two voices share a tag set, and every voice's
/// playback state is fit for ticking.
pub open spec fn session_wf(s: SessionView) -> bool {
    &&& forall|i: int, j: int|
        0 <= i < j < s.entries.len() ==> !same_tags(
            #[trigger] s.entries[i].tags,
            #[trigger] s.entries[j].tags,
        )
    &&& forall|i: int| 0 <= i < s.entries.len() ==> data_wf((#[trigger] s.entries[i]).data)
}

/// The playback state after hot replacement: the new definition takes
/// over, but the stream clock keeps running, and with `keep_root` the old
/// automaton and cursor are retained so that only the payloads change.
pub open spec fn spec_from_previous(prev: SchedDataView, g: GenView) -> SchedDataView {
    SchedDataView {
        generator: if g.keep_root {
            GenView { root_generator: prev.generator.root_generator, ..g }
        } else {
            g
        },
        stream_time: prev.stream_time,
        mode: prev.mode,
    }
}

/// A fresh voice's playback state: clock at zero.
pub open spec fn spec_from_data(g: GenView, mode: OutputMode) -> SchedDataView {
    SchedDataView { generator: g, stream_time: 0, mode }
}

/// The spec-level first-voice index agrees with an element-wise match.
proof fn lemma_find_voice_agrees(entries: Seq<EntryView>, tags: Seq<Seq<char>>, j: int)
    requires
        0 <= j < entries.len(),
        same_tags(entries[j].tags, tags),
        forall|k: int| 0 <= k < j ==> !same_tags((#[trigger] entries[k]).tags, tags),
    ensures
        find_voice(entries, tags) == j,
    decreases entries.len(),
{
    if j > 0 {
        assert(forall|k: int|
            0 <= k < j - 1 ==> entries.drop_first()[k] == entries[k + 1] && !same_tags(
                (#[trigger] entries.drop_first()[k]).tags,
                tags,
            ));
        lemma_find_voice_agrees(entries.drop_first(), tags, j - 1);
    }
}

/// When no voice carries the tag set, the spec-level search misses too.
proof fn lemma_find_voice_none(entries: Seq<EntryView>, tags: Seq<Seq<char>>)
    requires
        forall|k: int| 0 <= k < entries.len() ==> !same_tags((#[trigger] entries[k]).tags, tags),
    ensures
        find_voice(entries, tags) == -1,
    decreases entries.len(),
{
    if entries.len() > 0 {
        assert(forall|k: int|
            0 <= k < entries.len() - 1 ==> entries.drop_first()[k] == entries[k + 1] && !same_tags(
                (#[trigger] entries.drop_first()[k]).tags,
                tags,
            ));
        lemma_find_voice_none(entries.drop_first(), tags);
    }
}

/// Whether a tag list holds this tag.
fn contains_tag(tags: &Vec<String>, t: &String) -> (r: bool)
    ensures
        r == tag_views(tags@).contains(t@),
{
    let mut i: usize = 0;
    while i < tags.len()
        invariant
            i <= tags@.len(),
            forall|k: int| 0 <= k < i ==> tag_views(tags@)[k] != t@,
        decreases tags@.len() - i,
    {
        if tags[i].eq(t) {
            proof {
                assert(tag_views(tags@)[i as int] == t@);
            }
            return true;
        }
        proof {
            assert(tag_views(tags@)[i as int] == tags@[i as int]@);
        }
        i += 1;
    }
    proof {
        assert forall|k: int| 0 <= k < tags@.len() implies tag_views(tags@)[k] != t@ by {}
        if tag_views(tags@).contains(t@) {
            let k = choose|k: int| 0 <= k < tag_views(tags@).len() && tag_views(tags@)[k] == t@;
            assert(false);
        }
    }
    false
}

/// Whether every tag of `a` occurs in `b`.
fn subset_tags(a: &Vec<String>, b: &Vec<String>) -> (r: bool)
    ensures
        r == tags_subset(tag_views(a@), tag_views(b@)),
{
    let mut i: usize = 0;
    while i < a.len()
        invariant
            i <= a@.len(),
            forall|k: int| 0 <= k < i ==> tag_views(b@).contains(#[trigger] tag_views(a@)[k]),
        decreases a@.len() - i,
    {
        if !contains_tag(b, &a[i]) {
            proof {
                assert(tag_views(a@)[i as int] == a@[i as int]@);
            }
            return false;
        }
        proof {
            assert(tag_views(a@)[i as int] == a@[i as int]@);
        }
        i += 1;
    }
    true
}

/// Whether two tag lists name the same tag set.
fn tags_equal(a: &Vec<String>, b: &Vec<String>) -> (r: bool)
    ensures
        r == same_tags(tag_views(a@), tag_views(b@)),
{
    let fwd = subset_tags(a, b);
    if !fwd {
        return false;
    }
    subset_tags(b, a)
}

impl Session {
    /// A session with no running voices.
    pub fn with_mode(mode: OutputMode) -> (s: Session)
        ensures
            s@.entries.len() == 0,
            s@.output_mode == mode,
            session_wf(s@),
    {
        Session { schedulers: Vec::new(), output_mode: mode }
    }

    /// Index of the voice with this tag set, if one runs.
    fn find_entry(&self, tags: &Vec<String>) -> (r: Option<usize>)
        ensures
            match r {
                Some(j) => find_voice(self@.entries, tag_views(tags@)) == j as int && j
                    < self@.entries.len() && same_tags(self@.entries[j as int].tags, tag_views(tags@)),
                None => find_voice(self@.entries, tag_views(tags@)) == -1 && forall|k: int|
                    0 <= k < self@.entries.len() ==> !same_tags(
                        (#[trigger] self@.entries[k]).tags,
                        tag_views(tags@),
                    ),
            },
    {
        let mut i: usize = 0;
        while i < self.schedulers.len()
            invariant
                i <= self.schedulers@.len(),
                forall|k: int|
                    0 <= k < i ==> !same_tags(
                        (#[trigger] self.schedulers@[k]@).tags,
                        tag_views(tags@),
                    ),
            decreases self.schedulers@.len() - i,
        {
            if tags_equal(&self.schedulers[i].tags, tags) {
                proof {
                    assert(self@.entries[i as int] == self.schedulers@[i as int]@);
                    lemma_find_voice_agrees(self@.entries, tag_views(tags@), i as int);
                }
                return Some(i);
            }
            i += 1;
        }
        proof {
            assert(forall|k: int|
                0 <= k < self@.entries.len() ==> (#[trigger] self@.entries[k])
                    == self.schedulers@[k]@);
            lemma_find_voice_none(self@.entries, tag_views(tags@));
        }
        None
    }

    /// Start a voice, or replace the one already running under the same
    /// tag set. Replacement swaps the shared playback state in place while
    /// the scheduler keeps running, never adding a second registry entry:
    /// the timer identity and cadence continue uninterrupted, which is how
    /// live edits take effect without a dropout. A new tag set gets a
    /// fresh entry, clock at zero, scheduler running.
    pub fn start_generator(&mut self, gen: Box<Generator>)
        requires
            session_wf(old(self)@),
            cursor_wf(gen@.root_generator),
            gen@.root_generator.default_duration <= crate::generator::MAX_DURATION_MS,
        ensures
            session_wf(final(self)@),
            final(self)@.output_mode == old(self)@.output_mode,
            ({
                let j = find_voice(old(self)@.entries, gen@.id_tags);
                if j >= 0 {
                    &&& final(self)@.entries.len() == old(self)@.entries.len()
                    &&& (forall|k: int|
                        0 <= k < old(self)@.entries.len() && k != j ==> final(self)@.entries[k]
                            == old(self)@.entries[k])
                    &&& final(self)@.entries[j].tags == old(self)@.entries[j].tags
                    &&& final(self)@.entries[j].state == old(self)@.entries[j].state
                    &&& final(self)@.entries[j].data == spec_from_previous(
                        old(self)@.entries[j].data,
                        gen@,
                    )
                } else {
                    final(self)@.entries == old(self)@.entries.push(
                        EntryView {
                            tags: gen@.id_tags,
                            state: SchedulerState::Running,
                            data: spec_from_data(gen@, old(self)@.output_mode),
                        },
                    )
                }
            }),
    {
        let g = *gen;
        match self.find_entry(&g.id_tags) {
            Some(j) => {
                let ghost pre = self@.entries;
                let entry = self.schedulers.remove(j);
                let SessionEntry { tags, scheduler, data } = entry;
                let SchedulerData { generator: prev_gen, stream_time, mode } = data;
                let keep = g.keep_root;
                let Generator { id_tags, root_generator, processors, time_mods, keep_root } = g;
                let new_gen = if keep {
                    let Generator { root_generator: prev_root, .. } = prev_gen;
                    Generator { id_tags, root_generator: prev_root, processors, time_mods, keep_root }
                } else {
                    Generator { id_tags, root_generator, processors, time_mods, keep_root }
                };
                let entry2 = SessionEntry {
                    tags,
                    scheduler,
                    data: SchedulerData { generator: new_gen, stream_time, mode },
                };
                self.schedulers.insert(j, entry2);
                proof {
                    assert(self@.entries =~= pre.update(j as int, self@.entries[j as int]));
                    assert(self@.entries[j as int].data =~~= spec_from_previous(
                        pre[j as int].data,
                        gen@,
                    ));
                }
            },
            None => {
                let mut sched = Scheduler::new();
                sched.start();
                let data = SchedulerData {
                    generator: g,
                    stream_time: 0,
                    mode: self.output_mode,
                };
                let tags_copy = clone_tags(&data.generator.id_tags);
                let entry = SessionEntry { tags: tags_copy, scheduler: sched, data };
                let ghost pre = self@.entries;
                self.schedulers.push(entry);
                proof {
                    assert(self@.entries =~= pre.push(self@.entries[pre.len() as int]));
                    assert(self@.entries[pre.len() as int] =~~= (EntryView {
                        tags: gen@.id_tags,
                        state: SchedulerState::Running,
                        data: spec_from_data(gen@, old(self)@.output_mode),
                    }));
                    assert(self@.entries =~= pre.push(
                        EntryView {
                            tags: gen@.id_tags,
                            state: SchedulerState::Running,
                            data: spec_from_data(gen@, old(self)@.output_mode),
                        },
                    ));
                }
            },
        }
    }

    /// Stop the voice with this tag set, if one runs: its scheduler moves
    /// to stopped, everything else stands. A tag set never started is a
    /// no-op, not an error, and leaves the registry unchanged.
    pub fn stop_generator(&mut self, gen_name: &Vec<String>)
        requires
            session_wf(old(self)@),
        ensures
            session_wf(final(self)@),
            final(self)@.output_mode == old(self)@.output_mode,
            ({
                let j = find_voice(old(self)@.entries, tag_views(gen_name@));
                if j >= 0 {
                    &&& final(self)@.entries.len() == old(self)@.entries.len()
                    &&& (forall|k: int|
                        0 <= k < old(self)@.entries.len() && k != j ==> final(self)@.entries[k]
                            == old(self)@.entries[k])
                    &&& final(self)@.entries[j] == (EntryView {
                        state: SchedulerState::Stopped,
                        ..old(self)@.entries[j]
                    })
                } else {
                    final(self)@ == old(self)@
                }
            }),
    {
        match self.find_entry(gen_name) {
            Some(j) => {
                let ghost pre = self@.entries;
                let mut entry = self.schedulers.remove(j);
                entry.scheduler.stop();
                self.schedulers.insert(j, entry);
                proof {
                    assert(self@.entries =~= pre.update(j as int, self@.entries[j as int]));
                    assert(self@.entries[j as int] =~~= (EntryView {
                        state: SchedulerState::Stopped,
                        ..pre[j as int]
                    }));
                }
            },
            None => {
                proof {
                    assert(self@ =~~= old(self)@);
                }
            },
        }
    }

    /// Stop every running voice and empty the registry.
    pub fn clear_session(&mut self)
        requires
            session_wf(old(self)@),
        ensures
            session_wf(final(self)@),
            final(self)@.entries.len() == 0,
            final(self)@.output_mode == old(self)@.output_mode,
    {
        let mut i: usize = 0;
        let n = self.schedulers.len();
        while i < n
            invariant
                n == self.schedulers@.len(),
                i <= n,
                self.output_mode == old(self).output_mode,
            decreases n - i,
        {
            let mut entry = self.schedulers.remove(i);
            entry.scheduler.stop();
            self.schedulers.insert(i, entry);
            i += 1;
        }
        self.schedulers = Vec::new();
        proof {
            assert(self@.entries =~= Seq::<EntryView>::empty());
        }
    }

    /// One tick of the voice with this tag set: its triggers and wait, or
    /// None when no such voice runs or it is not in the running state. The
    /// whole step serialises through the registry, as the per-voice lock
    /// does in the host.
    pub fn tick_voice(&mut self, gen_name: &Vec<String>) -> (out: Option<(
        Vec<TriggerCommand>,
        u64,
    )>)
        requires
            session_wf(old(self)@),
        ensures
            session_wf(final(self)@),
            final(self)@.output_mode == old(self)@.output_mode,
            ({
                let j = find_voice(old(self)@.entries, tag_views(gen_name@));
                if j >= 0 && old(self)@.entries[j].state is Running {
                    &&& out is Some
                    &&& final(self)@.entries.len() == old(self)@.entries.len()
                    &&& (forall|k: int|
                        0 <= k < old(self)@.entries.len() && k != j ==> final(self)@.entries[k]
                            == old(self)@.entries[k])
                    &&& final(self)@.entries[j].tags == old(self)@.entries[j].tags
                    &&& final(self)@.entries[j].state == old(self)@.entries[j].state
                    &&& exists|r: int|
                        0 <= r < PROB_ONE && #[trigger] tick_post(
                            old(self)@.entries[j].data,
                            final(self)@.entries[j].data,
                            trigger_views(out->Some_0.0@),
                            out->Some_0.1,
                            r,
                        )
                } else {
                    out is None && final(self)@ == old(self)@
                }
            }),
    {
        match self.find_entry(gen_name) {
            Some(j) => {
                proof {
                    assert(self@.entries[j as int] == self.schedulers@[j as int]@);
                }
                let running = match self.schedulers[j].scheduler.state {
                    SchedulerState::Running => true,
                    _ => false,
                };
                if running {
                    let ghost pre = self@.entries;
                    proof {
                        assert(pre[j as int] == self.schedulers@[j as int]@);
                    }
                    let mut entry = self.schedulers.remove(j);
                    let out = crate::scheduler::tick(&mut entry.data);
                    let ghost cmds_v = trigger_views(out.0@);
                    let ghost w = out.1;
                    let ghost post_data = entry.data@;
                    self.schedulers.insert(j, entry);
                    let res = Some(out);
                    proof {
                        assert(self@.entries =~= pre.update(j as int, self@.entries[j as int]));
                        assert(self@.entries[j as int].tags == old(self)@.entries[j as int].tags);
                        assert(self@.entries[j as int].state == old(self)@.entries[j as int].state);
                        assert(self@.entries[j as int].data == post_data);
                        assert(exists|r: int|
                            0 <= r < PROB_ONE && #[trigger] tick_post(
                                old(self)@.entries[j as int].data,
                                self@.entries[j as int].data,
                                trigger_views(res->Some_0.0@),
                                res->Some_0.1,
                                r,
                            )) by {
                            let r = choose|r: int|
                                0 <= r < PROB_ONE && #[trigger] tick_post(
                                    pre[j as int].data,
                                    post_data,
                                    cmds_v,
                                    w,
                                    r,
                                );
                            assert(trigger_views(res->Some_0.0@) == cmds_v);
                            assert(0 <= r < PROB_ONE && tick_post(
                                old(self)@.entries[j as int].data,
                                self@.entries[j as int].data,
                                trigger_views(res->Some_0.0@),
                                res->Some_0.1,
                                r,
                            ));
                        };
                    }
                    res
                } else {
                    proof {
                        assert(self@ =~~= old(self)@);
                    }
                    None
                }
            },
            None => {
                proof {
                    assert(self@ =~~= old(self)@);
                }
                None
            },
        }
    }

    /// How many voices the registry holds.
    pub fn voice_count(&self) -> (n: usize)
        ensures
            n == self@.entries.len(),
    {
        self.schedulers.len()
    }

    /// The lifecycle state of the voice with this tag set, if one is
    /// registered.
    pub fn voice_state(&self, gen_name: &Vec<String>) -> (r: Option<SchedulerState>)
        ensures
            ({
                let j = find_voice(self@.entries, tag_views(gen_name@));
                if j >= 0 {
                    r == Some(self@.entries[j].state)
                } else {
                    r is None
                }
            }),
    {
        match self.find_entry(gen_name) {
            Some(j) => {
                proof {
                    assert(self@.entries[j as int] == self.schedulers@[j as int]@);
                }
                Some(self.schedulers[j].scheduler.state)
            },
            None => None,
        }
    }

    /// The stream clock of the voice with this tag set, if one is
    /// registered.
    pub fn voice_stream_time(&self, gen_name: &Vec<String>) -> (r: Option<u64>)
        ensures
            ({
                let j = find_voice(self@.entries, tag_views(gen_name@));
                if j >= 0 {
                    r == Some(self@.entries[j].data.stream_time)
                } else {
                    r is None
                }
            }),
    {
        match self.find_entry(gen_name) {
            Some(j) => {
                proof {
                    assert(self@.entries[j as int] == self.schedulers@[j as int]@);
                }
                Some(self.schedulers[j].data.stream_time)
            },
            None => None,
        }
    }
}

/// A copy of a tag list.
fn clone_tags(tags: &Vec<String>) -> (r: Vec<String>)
    ensures
        tag_views(r@) == tag_views(tags@),
{
    let mut r: Vec<String> = Vec::new();
    let mut i: usize = 0;
    while i < tags.len()
        invariant
            i <= tags@.len(),
            r@.len() == i,
            forall|k: int| 0 <= k < i ==> (#[trigger] r@[k])@ == tags@[k]@,
        decreases tags@.len() - i,
    {
        r.push(tags[i].clone());
        i += 1;
    }
    proof {
        assert(tag_views(r@) =~= tag_views(tags@));
    }
    r
}

} // verus!
