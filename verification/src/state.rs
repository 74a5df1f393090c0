//! Shared display state: one fragment per source, write-if-changed, and
//! fixed-order composition.

use vstd::prelude::*;

verus! {

/// The fixed set of data sources.  No dynamic registration: every producer
/// owns exactly one of these slots.
#[derive(Clone, Copy, PartialEq, Eq, Structural, Debug)]
pub enum Source {
    Time,
    SystemStat,
    Temp,
    Net,
    Volume,
}

/// The mathematical view of the display state: one sequence of characters
/// per source.
pub struct FieldsView {
    pub time: Seq<char>,
    pub systemstat: Seq<char>,
    pub temp: Seq<char>,
    pub net: Seq<char>,
    pub volume: Seq<char>,
}

impl FieldsView {
    /// The fragment currently held for `s`.
    pub open spec fn field(self, s: Source) -> Seq<char> {
        match s {
            Source::Time => self.time,
            Source::SystemStat => self.systemstat,
            Source::Temp => self.temp,
            Source::Net => self.net,
            Source::Volume => self.volume,
        }
    }

    /// The state after source `s` wrote fragment `f`.
    pub open spec fn update(self, s: Source, f: Seq<char>) -> FieldsView {
        match s {
            Source::Time => FieldsView { time: f, ..self },
            Source::SystemStat => FieldsView { systemstat: f, ..self },
            Source::Temp => FieldsView { temp: f, ..self },
            Source::Net => FieldsView { net: f, ..self },
            Source::Volume => FieldsView { volume: f, ..self },
        }
    }

    /// Composition order is fixed by source identity, never by arrival time:
    /// volume, network, system statistics, temperature, clock.
    pub open spec fn composed(self) -> Seq<char> {
        self.volume + self.net + self.systemstat + self.temp + self.time
    }

    /// The state at process start: every fragment empty.
    pub open spec fn init() -> FieldsView {
        FieldsView {
            time: Seq::empty(),
            systemstat: Seq::empty(),
            temp: Seq::empty(),
            net: Seq::empty(),
            volume: Seq::empty(),
        }
    }
}

/// The shared display state.  One slot per source plus a dirty flag that
/// records whether a write happened since the consumer last rendered; the
/// caller guards the whole structure with a single lock.
pub struct DisplayState {
    pub time: String,
    pub systemstat: String,
    pub temp: String,
    pub net: String,
    pub volume: String,
    pub dirty: bool,
}

impl DisplayState {
    /// The views of the five slots.
    pub open spec fn fields(self) -> FieldsView {
        FieldsView {
            time: self.time@,
            systemstat: self.systemstat@,
            temp: self.temp@,
            net: self.net@,
            volume: self.volume@,
        }
    }

    /// Fresh state: every fragment empty, nothing to render yet.
    pub fn new() -> (r: DisplayState)
        ensures
            r.fields() == FieldsView::init(),
            !r.dirty,
    {
        DisplayState {
            time: String::new(),
            systemstat: String::new(),
            temp: String::new(),
            net: String::new(),
            volume: String::new(),
            dirty: false,
        }
    }

    /// Write-if-changed: replace the slot of `source` only when `fragment`
    /// differs from what it holds, and report whether the consumer must be
    /// woken.  A write of an unchanged fragment raises no notification.
    pub fn write(&mut self, source: Source, fragment: String) -> (notify: bool)
        ensures
            notify == (old(self).fields().field(source) != fragment@),
            final(self).fields() == old(self).fields().update(source, fragment@),
            final(self).dirty == (old(self).dirty || notify),
    {
        let changed: bool = match source {
            Source::Time => self.time != fragment,
            Source::SystemStat => self.systemstat != fragment,
            Source::Temp => self.temp != fragment,
            Source::Net => self.net != fragment,
            Source::Volume => self.volume != fragment,
        };
        if changed {
            match source {
                Source::Time => self.time = fragment,
                Source::SystemStat => self.systemstat = fragment,
                Source::Temp => self.temp = fragment,
                Source::Net => self.net = fragment,
                Source::Volume => self.volume = fragment,
            }
            self.dirty = true;
        }
        proof {
            assert(final(self).fields() =~= old(self).fields().update(source, fragment@));
        }
        changed
    }

    /// The composed string: all fragments concatenated in the fixed order.
    pub fn compose(&self) -> (r: String)
        ensures
            r@ == self.fields().composed(),
    {
        let mut r = String::new();
        r.append(self.volume.as_str());
        r.append(self.net.as_str());
        r.append(self.systemstat.as_str());
        r.append(self.temp.as_str());
        r.append(self.time.as_str());
        proof {
            assert(r@ =~= self.fields().composed());
        }
        r
    }

    /// The consumer saw the current state; nothing is pending any more.
    pub fn clear_dirty(&mut self)
        ensures
            final(self).fields() == old(self).fields(),
            !final(self).dirty,
    {
        self.dirty = false;
    }

    /// Whether a write happened since the consumer last rendered.
    pub fn is_dirty(&self) -> (r: bool)
        ensures
            r == self.dirty,
    {
        self.dirty
    }
}

/// The state after a whole sequence of writes, first write first.
pub open spec fn apply_writes(v: FieldsView, ws: Seq<(Source, Seq<char>)>) -> FieldsView
    decreases ws.len(),
{
    if ws.len() == 0 {
        v
    } else {
        apply_writes(v.update(ws[0].0, ws[0].1), ws.drop_first())
    }
}

/// The most recently written fragment for `s` in `ws`, if any.
pub open spec fn last_written(ws: Seq<(Source, Seq<char>)>, s: Source) -> Option<Seq<char>>
    decreases ws.len(),
{
    if ws.len() == 0 {
        None
    } else {
        match last_written(ws.drop_first(), s) {
            Some(f) => Some(f),
            None => if ws[0].0 == s {
                Some(ws[0].1)
            } else {
                None
            },
        }
    }
}

/// The fragment `s` shows after the writes `ws`: its most recently written
/// value, or its value in `v` if `ws` never wrote it.
pub open spec fn latest(v: FieldsView, ws: Seq<(Source, Seq<char>)>, s: Source) -> Seq<char> {
    match last_written(ws, s) {
        Some(f) => f,
        None => v.field(s),
    }
}

/// After any sequence of writes, each slot holds exactly the most recently
/// written value for its source, and the composed string is the fixed-order
/// concatenation of those values.
pub proof fn lemma_writes_track_latest(v: FieldsView, ws: Seq<(Source, Seq<char>)>)
    ensures
        forall|s: Source| apply_writes(v, ws).field(s) == latest(v, ws, s),
        apply_writes(v, ws).composed() == latest(v, ws, Source::Volume) + latest(v, ws, Source::Net)
            + latest(v, ws, Source::SystemStat) + latest(v, ws, Source::Temp)
            + latest(v, ws, Source::Time),
    decreases ws.len(),
{
    if ws.len() > 0 {
        lemma_writes_track_latest(v.update(ws[0].0, ws[0].1), ws.drop_first());
    }
}

/// Writing the same fragment twice in a row: the second write finds the slot
/// already holding it, so it changes nothing and raises no notification.
pub proof fn lemma_write_idempotent(v: FieldsView, s: Source, f: Seq<char>)
    ensures
        v.update(s, f).field(s) == f,
        v.update(s, f).update(s, f) == v.update(s, f),
        v.update(s, f).update(s, f).composed() == v.update(s, f).composed(),
{
}

/// A write touches only its own slot: every other source's fragment is
/// unaffected, however the written one degrades or changes.
pub proof fn lemma_write_frame(v: FieldsView, s: Source, f: Seq<char>, o: Source)
    requires
        o != s,
    ensures
        v.update(s, f).field(o) == v.field(o),
{
}

/// Writes to different sources commute: each slot shows its own producer's
/// latest write, whatever the interleaving.
pub proof fn lemma_writes_commute(v: FieldsView, s1: Source, f1: Seq<char>, s2: Source, f2: Seq<char>)
    requires
        s1 != s2,
    ensures
        v.update(s1, f1).update(s2, f2) == v.update(s2, f2).update(s1, f1),
{
}

/// A later write to the same source wins.
pub proof fn lemma_write_overwrites(v: FieldsView, s: Source, f1: Seq<char>, f2: Seq<char>)
    ensures
        v.update(s, f1).update(s, f2) == v.update(s, f2),
{
}

} // verus!
