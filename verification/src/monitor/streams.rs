use vstd::prelude::*;

use crate::errors::Error;
use crate::monitor::types::Verdict;
use crate::monitor_setup::operation_types::DerivedStream;

verus! {

/// What lower-casing a string gives, as `str::to_lowercase` computes it.
pub uninterp spec fn lowercase(s: Seq<char>) -> Seq<char>;

/// Calls `str::to_lowercase`; its result is named `lowercase` of the
/// characters of the argument (Unicode lower-case mapping, which is not
/// spelled out here).
#[verifier::external_body]
fn to_lowercase(s: &str) -> (r: String)
    ensures
        r@ == lowercase(s@),
{
    s.to_lowercase()
}

/// The state of one device at one time point.
#[derive(Debug, PartialEq)]
pub struct IoTDevice {
    pub name: String,
    pub power: i128,
}

impl View for IoTDevice {
    type V = (Seq<char>, i128);

    open spec fn view(&self) -> (Seq<char>, i128) {
        (self.name@, self.power)
    }
}

impl Clone for IoTDevice {
    fn clone(&self) -> (r: Self)
        ensures
            r == *self,
    {
        IoTDevice { name: self.name.clone(), power: self.power }
    }
}

impl From<(String, i128)> for IoTDevice {
    /// A device with the name lower-cased.
    fn from(value: (String, i128)) -> (r: Self)
        ensures
            r@ == (lowercase(value.0@), value.1),
    {
        let (name, power) = value;
        let name = to_lowercase(name.as_str());
        IoTDevice { name, power }
    }
}

impl vstd::std_specs::convert::FromSpecImpl<(String, i128)> for IoTDevice {
    open spec fn obeys_from_spec() -> bool {
        false
    }

    closed spec fn from_spec(v: (String, i128)) -> Self {
        arbitrary()
    }
}

/// The states of the devices of one time point.
pub open spec fn devs_view(v: Seq<IoTDevice>) -> Seq<(Seq<char>, i128)> {
    v.map_values(|d: IoTDevice| d@)
}

/// The recorded device states, one list of devices per time point.
#[derive(Debug, PartialEq, Clone)]
pub struct IoTStream(Vec<Vec<IoTDevice>>);

impl View for IoTStream {
    type V = Seq<Seq<(Seq<char>, i128)>>;

    closed spec fn view(&self) -> Seq<Seq<(Seq<char>, i128)>> {
        self.0@.map_values(|v: Vec<IoTDevice>| devs_view(v@))
    }
}

impl IoTStream {
    /// The recorded device lists, one per time point.
    pub closed spec fn rows(&self) -> Seq<Vec<IoTDevice>> {
        self.0@
    }

    /// The view of a stream is the view of its rows.
    pub proof fn lemma_view_of_rows(&self)
        ensures
            self@ == self.rows().map_values(|v: Vec<IoTDevice>| devs_view(v@)),
    {
    }

    /// The devices of time point `i`.
    pub fn get_devices(&self, i: usize) -> (r: &Vec<IoTDevice>)
        requires
            i < self@.len(),
        ensures
            devs_view(r@) == self@[i as int],
    {
        &self.0[i]
    }

    /// An empty stream.
    pub fn with_capacity(capacity: usize) -> (r: Self)
        ensures
            r@ == Seq::<Seq<(Seq<char>, i128)>>::empty(),
            r.rows() == Seq::<Vec<IoTDevice>>::empty(),
    {
        let r = IoTStream(Vec::with_capacity(capacity));
        assert(r@ =~= Seq::<Seq<(Seq<char>, i128)>>::empty());
        r
    }

    /// The number of recorded time points.
    pub fn len(&self) -> (r: usize)
        ensures
            r == self@.len(),
    {
        self.0.len()
    }

    /// Mutable access to the devices of time point `i`.
    pub fn get_mut_devices(&mut self, i: usize) -> (r: &mut Vec<IoTDevice>)
        requires
            i < old(self)@.len(),
        ensures
            devs_view(r@) == old(self)@[i as int],
            final(self)@ == old(self)@.update(i as int, devs_view(final(r)@)),
    {
        let r = &mut self.0[i];
        r
    }

    /// A copy of the devices of time point `i`.
    pub fn get_devices_own(&self, i: usize) -> (r: Vec<IoTDevice>)
        requires
            i < self@.len(),
        ensures
            devs_view(r@) == self@[i as int],
    {
        let r = self.0[i].clone();
        assert(r@ =~= self.0@[i as int]@);
        r
    }

    /// All recorded time points.
    pub fn get_all_own(self) -> (r: Vec<Vec<IoTDevice>>)
        ensures
            r@ == self.rows(),
            r@.map_values(|v: Vec<IoTDevice>| devs_view(v@)) == self@,
    {
        self.0
    }

    /// Replaces the devices of time point `i`; fails where there is no such
    /// time point.
    pub fn push_at(&mut self, devices: Vec<IoTDevice>, i: usize) -> (r: Result<(), Error>)
        ensures
            i < old(self)@.len() ==> r is Ok && final(self)@ == old(self)@.update(
                i as int,
                devs_view(devices@),
            ) && final(self).rows() == old(self).rows().update(i as int, devices),
            i >= old(self)@.len() ==> r == Err::<(), Error>(Error::OutOfBoundsIoTStream)
                && *final(self) == *old(self),
    {
        if i < self.0.len() {
            self.0.set(i, devices);
            Ok(())
        } else {
            Err(Error::OutOfBoundsIoTStream)
        }
    }
}

impl From<Vec<Vec<IoTDevice>>> for IoTStream {
    fn from(value: Vec<Vec<IoTDevice>>) -> (r: Self)
        ensures
            r.rows() == value@,
            r@ == value@.map_values(|v: Vec<IoTDevice>| devs_view(v@)),
    {
        IoTStream(value)
    }
}

impl vstd::std_specs::convert::FromSpecImpl<Vec<Vec<IoTDevice>>> for IoTStream {
    open spec fn obeys_from_spec() -> bool {
        true
    }

    closed spec fn from_spec(v: Vec<Vec<IoTDevice>>) -> Self {
        IoTStream(v)
    }
}

impl From<Vec<IoTDevice>> for IoTStream {
    fn from(value: Vec<IoTDevice>) -> (r: Self)
        ensures
            r.rows() == seq![value],
            r@ == seq![devs_view(value@)],
    {
        let mut rows: Vec<Vec<IoTDevice>> = Vec::new();
        rows.push(value);
        let r = IoTStream(rows);
        assert(r@ =~= seq![devs_view(value@)]);
        r
    }
}

impl vstd::std_specs::convert::FromSpecImpl<Vec<IoTDevice>> for IoTStream {
    open spec fn obeys_from_spec() -> bool {
        false
    }

    closed spec fn from_spec(v: Vec<IoTDevice>) -> Self {
        arbitrary()
    }
}

/// One compiled property together with the time points whose verdict is
/// still open.
#[derive(Debug, PartialEq)]
pub struct OutputStream {
    pub unresolved_timepoints: Vec<(i128, Verdict)>,
    pub derived_streams: Vec<DerivedStream>,
}

/// The time points whose verdict is false, in order.
pub open spec fn false_times(s: Seq<(i128, Verdict)>) -> Seq<i128>
    decreases s.len(),
{
    if s.len() == 0 {
        Seq::empty()
    } else {
        let rest = false_times(s.drop_last());
        if s.last().1 == Verdict::False {
            rest.push(s.last().0)
        } else {
            rest
        }
    }
}

/// The time points whose verdict is still undecided, in order.
pub open spec fn undecided_only(s: Seq<(i128, Verdict)>) -> Seq<(i128, Verdict)>
    decreases s.len(),
{
    if s.len() == 0 {
        Seq::empty()
    } else {
        let rest = undecided_only(s.drop_last());
        if s.last().1 == Verdict::Undecided {
            rest.push(s.last())
        } else {
            rest
        }
    }
}

/// Some time point has a false verdict.
pub open spec fn has_false(s: Seq<(i128, Verdict)>) -> bool {
    exists|i: int| 0 <= i < s.len() && #[trigger] s[i].1 == Verdict::False
}

impl OutputStream {
    /// The compiled property.
    pub fn get_operations(&self) -> (r: &Vec<DerivedStream>)
        ensures
            r@ == self.derived_streams@,
    {
        &self.derived_streams
    }

    /// Opens a verdict for time point `t`.
    pub fn insert(&mut self, t: i128)
        ensures
            final(self).unresolved_timepoints@ == old(self).unresolved_timepoints@.push(
                (t, Verdict::Undecided),
            ),
            final(self).derived_streams == old(self).derived_streams,
    {
        self.unresolved_timepoints.push((t, Verdict::Undecided))
    }

    /// The time points whose verdict is false.
    pub fn get_verdict_mul(&self) -> (r: Vec<i128>)
        ensures
            r@ == false_times(self.unresolved_timepoints@),
    {
        let ghost s = self.unresolved_timepoints@;
        let mut r: Vec<i128> = Vec::new();
        let mut i: usize = 0;
        while i < self.unresolved_timepoints.len()
            invariant
                s == self.unresolved_timepoints@,
                i <= s.len(),
                r@ == false_times(s.take(i as int)),
            decreases s.len() - i,
        {
            let (time, verdict) = self.unresolved_timepoints[i];
            assert(s.take(i + 1).drop_last() =~= s.take(i as int));
            if verdict == Verdict::False {
                r.push(time);
            }
            i = i + 1;
        }
        assert(s.take(s.len() as int) =~= s);
        r
    }

    /// Whether a time point holds a false verdict.
    pub fn get_violated_verdict_single(&mut self) -> (r: bool)
        ensures
            r == has_false(old(self).unresolved_timepoints@),
            *final(self) == *old(self),
    {
        let ghost s = self.unresolved_timepoints@;
        let mut i: usize = 0;
        while i < self.unresolved_timepoints.len()
            invariant
                s == self.unresolved_timepoints@,
                i <= s.len(),
                forall|j: int| 0 <= j < i ==> s[j].1 != Verdict::False,
            decreases s.len() - i,
        {
            if self.unresolved_timepoints[i].1 == Verdict::False {
                return true;
            }
            i = i + 1;
        }
        false
    }

    /// Drops the time points whose verdict is decided.
    pub fn clean_up(&mut self)
        ensures
            final(self).unresolved_timepoints@ == undecided_only(old(self).unresolved_timepoints@),
            final(self).derived_streams == old(self).derived_streams,
    {
        let ghost s = self.unresolved_timepoints@;
        let mut kept: Vec<(i128, Verdict)> = Vec::new();
        let mut i: usize = 0;
        while i < self.unresolved_timepoints.len()
            invariant
                s == self.unresolved_timepoints@,
                i <= s.len(),
                kept@ == undecided_only(s.take(i as int)),
            decreases s.len() - i,
        {
            let tp = self.unresolved_timepoints[i];
            assert(s.take(i + 1).drop_last() =~= s.take(i as int));
            if tp.1 == Verdict::Undecided {
                kept.push(tp);
            }
            i = i + 1;
        }
        assert(s.take(s.len() as int) =~= s);
        self.unresolved_timepoints = kept;
    }
}

impl From<Vec<DerivedStream>> for OutputStream {
    fn from(value: Vec<DerivedStream>) -> (r: Self)
        ensures
            r.derived_streams == value,
            r.unresolved_timepoints@ == Seq::<(i128, Verdict)>::empty(),
    {
        OutputStream { derived_streams: value, unresolved_timepoints: Vec::new() }
    }
}

impl vstd::std_specs::convert::FromSpecImpl<Vec<DerivedStream>> for OutputStream {
    open spec fn obeys_from_spec() -> bool {
        false
    }

    closed spec fn from_spec(v: Vec<DerivedStream>) -> Self {
        arbitrary()
    }
}

/// After `clean_up` every time point that is left is undecided, and every
/// undecided one is left.
pub proof fn lemma_clean_up_keeps_undecided(s: Seq<(i128, Verdict)>, p: (i128, Verdict))
    ensures
        forall|i: int| 0 <= i < undecided_only(s).len() ==> (#[trigger] undecided_only(s)[i]).1 == Verdict::Undecided,
        undecided_only(s).contains(p) <==> (s.contains(p) && p.1 == Verdict::Undecided),
    decreases s.len(),
{
    if s.len() > 0 {
        let prev = s.drop_last();
        lemma_clean_up_keeps_undecided(prev, p);
        let u = undecided_only(s);
        let up = undecided_only(prev);
        if s.last().1 == Verdict::Undecided {
            assert(u == up.push(s.last()));
        } else {
            assert(u == up);
        }
        if u.contains(p) {
            let k = choose|k: int| 0 <= k < u.len() && u[k] == p;
            if k < up.len() {
                assert(up[k] == p);
                let m = choose|m: int| 0 <= m < prev.len() && prev[m] == p;
                assert(s[m] == p);
            } else {
                assert(s[s.len() - 1] == p);
            }
        }
        if s.contains(p) && p.1 == Verdict::Undecided {
            let m = choose|m: int| 0 <= m < s.len() && s[m] == p;
            if m < s.len() - 1 {
                assert(prev[m] == p);
                let k = choose|k: int| 0 <= k < up.len() && up[k] == p;
                assert(u[k] == p);
            } else {
                assert(u[u.len() - 1] == p);
            }
        }
    }
}

/// Cleaning up twice is cleaning up once.
pub proof fn lemma_clean_up_idempotent(s: Seq<(i128, Verdict)>)
    ensures
        undecided_only(undecided_only(s)) == undecided_only(s),
    decreases s.len(),
{
    if s.len() > 0 {
        let prev = s.drop_last();
        lemma_clean_up_idempotent(prev);
        let up = undecided_only(prev);
        if s.last().1 == Verdict::Undecided {
            assert(up.push(s.last()).drop_last() =~= up);
        }
    }
}

/// A violation is reported exactly when some time point is listed as false.
pub proof fn lemma_violation_iff_false_times(s: Seq<(i128, Verdict)>)
    ensures
        has_false(s) <==> false_times(s).len() > 0,
    decreases s.len(),
{
    if s.len() > 0 {
        let prev = s.drop_last();
        lemma_violation_iff_false_times(prev);
        if has_false(s) && s.last().1 != Verdict::False {
            let i = choose|i: int| 0 <= i < s.len() && #[trigger] s[i].1 == Verdict::False;
            assert(prev[i].1 == Verdict::False);
        }
        if has_false(prev) {
            let i = choose|i: int| 0 <= i < prev.len() && #[trigger] prev[i].1 == Verdict::False;
            assert(s[i].1 == Verdict::False);
        }
        if s.last().1 == Verdict::False {
            assert(s[s.len() - 1].1 == Verdict::False);
        }
    }
}

} // verus!
