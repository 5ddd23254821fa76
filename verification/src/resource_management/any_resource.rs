//! A resource in whichever state it is, with the questions asked of every resource:
//! its fields, its absences, and on which days it can work.

use vstd::prelude::*;
use vstd::std_specs::convert::FromSpecImpl;
use crate::dates::{in_range, local_millis_in_range, weekday_index, Date};
use crate::resource_management::resource::{same_record, Period, Resource, TimeOffEntry};
use crate::resource_management::state::{Assigned, Available, Inactive};

verus! {

/// A resource in any of its states.
#[derive(Debug)]
pub enum AnyResource {
    Available(Resource<Available>),
    Assigned(Resource<Assigned>),
    Inactive(Resource<Inactive>),
}

/// The first and last local calendar days of an absence.
pub type DaySpan = (Date, Date);

/// Whether the day lies within one of the spans, ends included.
pub open spec fn in_some_span(day: int, spans: Seq<DaySpan>) -> bool {
    exists|i: int| 0 <= i < spans.len() && (#[trigger] spans[i]).0.day() <= day <= spans[i].1.day()
}

/// Whether both instants of every absence have a local calendar day.
pub open spec fn periods_in_range(v: Seq<Period>) -> bool {
    forall|i: int|
        0 <= i < v.len() ==> local_millis_in_range((#[trigger] v[i]).start_date as int)
            && local_millis_in_range(v[i].end_date as int)
}

impl AnyResource {
    /// The absences of the resource, if recorded.
    pub open spec fn vacations_spec(self) -> Option<Vec<Period>> {
        match self {
            AnyResource::Available(r) => r.vacations,
            AnyResource::Assigned(r) => r.vacations,
            AnyResource::Inactive(r) => r.vacations,
        }
    }

    /// The number of recorded absences.
    pub open spec fn vacation_count(self) -> nat {
        match self.vacations_spec() {
            Some(v) => v@.len(),
            None => 0,
        }
    }

    /// Whether every recorded absence has local calendar days.
    pub open spec fn vacations_in_range(self) -> bool {
        self.vacations_spec() matches Some(v) ==> periods_in_range(v@)
    }

    /// The first day of work, if set.
    pub open spec fn start_date_spec(self) -> Option<Date> {
        match self {
            AnyResource::Available(r) => r.start_date,
            AnyResource::Assigned(r) => r.start_date,
            AnyResource::Inactive(r) => r.start_date,
        }
    }

    /// The last day of work, if set.
    pub open spec fn end_date_spec(self) -> Option<Date> {
        match self {
            AnyResource::Available(r) => r.end_date,
            AnyResource::Assigned(r) => r.end_date,
            AnyResource::Inactive(r) => r.end_date,
        }
    }

    /// The readable name of the state.
    pub open spec fn status_spec(self) -> Seq<char> {
        match self {
            AnyResource::Available(_) => "Available"@,
            AnyResource::Assigned(_) => "Assigned"@,
            AnyResource::Inactive(_) => "Inactive"@,
        }
    }

    /// Whether the resource can work on the day, given the local days of its
    /// absences: it is active, the day lies within its period of work, falls from
    /// Monday to Friday, and lies in no absence.
    pub open spec fn available_given(self, day: int, spans: Seq<DaySpan>) -> bool {
        &&& !(self is Inactive)
        &&& (self.start_date_spec() matches Some(s) ==> s.day() <= day)
        &&& (self.end_date_spec() matches Some(e) ==> day <= e.day())
        &&& weekday_index(day) < 5
        &&& !in_some_span(day, spans)
    }

    /// The identifier of the resource.
    pub fn id(&self) -> (r: &uuid7::Uuid)
        ensures
            r == match self {
                AnyResource::Available(x) => &x.id,
                AnyResource::Assigned(x) => &x.id,
                AnyResource::Inactive(x) => &x.id,
            },
    {
        match self {
            AnyResource::Available(r) => &r.id,
            AnyResource::Assigned(r) => &r.id,
            AnyResource::Inactive(r) => &r.id,
        }
    }

    /// The code of the resource.
    pub fn code(&self) -> (r: &str)
        ensures
            r@ == match self {
                AnyResource::Available(x) => x.code@,
                AnyResource::Assigned(x) => x.code@,
                AnyResource::Inactive(x) => x.code@,
            },
    {
        match self {
            AnyResource::Available(r) => r.code.as_str(),
            AnyResource::Assigned(r) => r.code.as_str(),
            AnyResource::Inactive(r) => r.code.as_str(),
        }
    }

    /// The name of the resource.
    pub fn name(&self) -> (r: &str)
        ensures
            r@ == match self {
                AnyResource::Available(x) => x.name@,
                AnyResource::Assigned(x) => x.name@,
                AnyResource::Inactive(x) => x.name@,
            },
    {
        match self {
            AnyResource::Available(r) => r.name.as_str(),
            AnyResource::Assigned(r) => r.name.as_str(),
            AnyResource::Inactive(r) => r.name.as_str(),
        }
    }

    /// The type of the resource.
    pub fn resource_type(&self) -> (r: &str)
        ensures
            r@ == match self {
                AnyResource::Available(x) => x.resource_type@,
                AnyResource::Assigned(x) => x.resource_type@,
                AnyResource::Inactive(x) => x.resource_type@,
            },
    {
        match self {
            AnyResource::Available(r) => r.resource_type.as_str(),
            AnyResource::Assigned(r) => r.resource_type.as_str(),
            AnyResource::Inactive(r) => r.resource_type.as_str(),
        }
    }

    /// The absences of the resource, if recorded.
    pub fn vacations(&self) -> (r: Option<&[Period]>)
        ensures
            match self.vacations_spec() {
                Some(v) => r matches Some(x) && x@ == v@,
                None => r is None,
            },
    {
        match self {
            AnyResource::Available(r) => r.vacations(),
            AnyResource::Assigned(r) => r.vacations(),
            AnyResource::Inactive(r) => r.vacations(),
        }
    }

    /// The absences of the resource one by one, if recorded.
    pub fn vacations_iter(&self) -> (r: Option<core::slice::Iter<'_, Period>>)
        ensures
            match self.vacations_spec() {
                Some(v) => r matches Some(it) && vstd::std_specs::slice::into_iter_elts(it) == v@,
                None => r is None,
            },
    {
        match self.vacations() {
            Some(v) => {
                let it = v.iter();
                proof {
                    broadcast use vstd::std_specs::slice::axiom_spec_slice_iter;
                    assert(vstd::std_specs::iter::IteratorSpec::remaining(&it).unref() =~= v@);
                }
                Some(it)
            },
            None => None,
        }
    }

    /// The time taken off by the resource one by one, if recorded.
    pub fn time_off_history_iter(&self) -> (r: Option<core::slice::Iter<'_, TimeOffEntry>>)
        ensures
            match (match self {
                AnyResource::Available(x) => x.time_off_history,
                AnyResource::Assigned(x) => x.time_off_history,
                AnyResource::Inactive(x) => x.time_off_history,
            }) {
                Some(v) => r matches Some(it) && vstd::std_specs::slice::into_iter_elts(it) == v@,
                None => r is None,
            },
    {
        let h = match self {
            AnyResource::Available(r) => r.time_off_history(),
            AnyResource::Assigned(r) => r.time_off_history(),
            AnyResource::Inactive(r) => r.time_off_history(),
        };
        match h {
            Some(v) => {
                let it = v.iter();
                proof {
                    broadcast use vstd::std_specs::slice::axiom_spec_slice_iter;
                    assert(vstd::std_specs::iter::IteratorSpec::remaining(&it).unref() =~= v@);
                }
                Some(it)
            },
            None => None,
        }
    }

    /// The resource, inactive; refused where it already is.
    pub fn deactivate(self) -> (r: Result<AnyResource, String>)
        ensures
            match self {
                AnyResource::Available(x) => r matches Ok(AnyResource::Inactive(y)) && same_record(y, x),
                AnyResource::Assigned(x) => r matches Ok(AnyResource::Inactive(y)) && same_record(y, x),
                AnyResource::Inactive(_) => r matches Err(e) && e@ == "Resource is already inactive."@,
            },
    {
        match self {
            AnyResource::Available(r) => Ok(AnyResource::Inactive(r.deactivate())),
            AnyResource::Assigned(r) => Ok(AnyResource::Inactive(r.deactivate())),
            AnyResource::Inactive(_) => Err(String::from_str("Resource is already inactive.")),
        }
    }

    /// Renames the resource.
    pub fn set_name(&mut self, name: String)
        ensures
            *final(self) == match *old(self) {
                AnyResource::Available(x) => AnyResource::Available(Resource { name: name, ..x }),
                AnyResource::Assigned(x) => AnyResource::Assigned(Resource { name: name, ..x }),
                AnyResource::Inactive(x) => AnyResource::Inactive(Resource { name: name, ..x }),
            },
    {
        match self {
            AnyResource::Available(r) => r.name = name,
            AnyResource::Assigned(r) => r.name = name,
            AnyResource::Inactive(r) => r.name = name,
        }
    }

    /// Sets or clears the e-mail address of the resource.
    pub fn set_email(&mut self, email: Option<String>)
        ensures
            *final(self) == match *old(self) {
                AnyResource::Available(x) => AnyResource::Available(Resource { email: email, ..x }),
                AnyResource::Assigned(x) => AnyResource::Assigned(Resource { email: email, ..x }),
                AnyResource::Inactive(x) => AnyResource::Inactive(Resource { email: email, ..x }),
            },
    {
        match self {
            AnyResource::Available(r) => r.email = email,
            AnyResource::Assigned(r) => r.email = email,
            AnyResource::Inactive(r) => r.email = email,
        }
    }

    /// Changes the type of the resource.
    pub fn set_resource_type(&mut self, resource_type: String)
        ensures
            *final(self) == match *old(self) {
                AnyResource::Available(x) => AnyResource::Available(Resource { resource_type: resource_type, ..x }),
                AnyResource::Assigned(x) => AnyResource::Assigned(Resource { resource_type: resource_type, ..x }),
                AnyResource::Inactive(x) => AnyResource::Inactive(Resource { resource_type: resource_type, ..x }),
            },
    {
        match self {
            AnyResource::Available(r) => r.resource_type = resource_type,
            AnyResource::Assigned(r) => r.resource_type = resource_type,
            AnyResource::Inactive(r) => r.resource_type = resource_type,
        }
    }

    /// The highest share of its time, in percent, that the resource may be given:
    /// that of its limits, 100 without limits, and none once inactive.
    pub fn max_allocation_percentage(&self) -> (r: u32)
        ensures
            r == match self {
                AnyResource::Available(x) => match x.wip_limits {
                    Some(w) => w.max_allocation_percentage as u32,
                    None => 100,
                },
                AnyResource::Assigned(x) => match x.wip_limits {
                    Some(w) => w.max_allocation_percentage as u32,
                    None => 100,
                },
                AnyResource::Inactive(_) => 0,
            },
    {
        match self {
            AnyResource::Available(r) => match &r.wip_limits {
                Some(w) => w.max_allocation_percentage as u32,
                None => 100,
            },
            AnyResource::Assigned(r) => match &r.wip_limits {
                Some(w) => w.max_allocation_percentage as u32,
                None => 100,
            },
            AnyResource::Inactive(_) => 0,
        }
    }

    /// Whether the day falls from Monday to Friday.
    pub fn is_working_day(&self, date: Date) -> (b: bool)
        requires
            date.wf(),
        ensures
            b == (weekday_index(date.day()) < 5),
    {
        date.weekday_from_monday() < 5
    }

    /// The local calendar days on which each recorded absence starts and ends, in order.
    fn vacation_spans(&self) -> (r: Vec<DaySpan>)
        requires
            self.vacations_in_range(),
        ensures
            r@.len() == self.vacation_count(),
    {
        let mut r: Vec<DaySpan> = Vec::new();
        match self.vacations() {
            Some(v) => {
                let mut i: usize = 0;
                while i < v.len()
                    invariant
                        0 <= i <= v@.len(),
                        r@.len() == i,
                        self.vacations_spec() matches Some(w) && w@ == v@,
                        periods_in_range(v@),
                    decreases v.len() - i,
                {
                    let p = &v[i];
                    let first = Date::local_day_of_millis(p.start_date);
                    let last = Date::local_day_of_millis(p.end_date);
                    r.push((first, last));
                    i = i + 1;
                }
            },
            None => {},
        }
        r
    }

    /// Whether the day lies within one of the spans, ends included.
    pub fn in_spans(date: &Date, spans: &Vec<DaySpan>) -> (b: bool)
        ensures
            b == in_some_span(date.day(), spans@),
    {
        let mut i: usize = 0;
        while i < spans.len()
            invariant
                0 <= i <= spans@.len(),
                forall|k: int| 0 <= k < i ==> !((#[trigger] spans@[k]).0.day() <= date.day() <= spans@[k].1.day()),
            decreases spans.len() - i,
        {
            let (first, last) = spans[i];
            if !date.before(&first) && !last.before(date) {
                assert(spans@[i as int].0.day() <= date.day() <= spans@[i as int].1.day());
                return true;
            }
            i = i + 1;
        }
        false
    }

    /// Whether the day lies within one of the resource's absences, each taken from its
    /// local first day to its local last day.
    pub fn is_holiday(&self, date: Date) -> (b: bool)
        requires
            self.vacations_in_range(),
        ensures
            exists|s: Seq<DaySpan>| s.len() == self.vacation_count() && b == in_some_span(date.day(), s),
    {
        let spans = self.vacation_spans();
        Self::in_spans(&date, &spans)
    }

    /// Whether the resource is on leave on the day: its absences count as leave.
    pub fn is_on_leave(&self, date: Date) -> (b: bool)
        requires
            self.vacations_in_range(),
        ensures
            exists|s: Seq<DaySpan>| s.len() == self.vacation_count() && b == in_some_span(date.day(), s),
    {
        self.is_holiday(date)
    }

    /// Whether the resource can work on the day, given the local days of its absences.
    pub fn is_available_given(&self, date: Date, spans: &Vec<DaySpan>) -> (b: bool)
        requires
            date.wf(),
        ensures
            b == self.available_given(date.day(), spans@),
    {
        let (start, end) = match self {
            AnyResource::Available(r) => (r.start_date, r.end_date),
            AnyResource::Assigned(r) => (r.start_date, r.end_date),
            AnyResource::Inactive(_) => {
                return false;
            },
        };
        match start {
            Some(s) => {
                if date.before(&s) {
                    return false;
                }
            },
            None => {},
        }
        match end {
            Some(e) => {
                if e.before(&date) {
                    return false;
                }
            },
            None => {},
        }
        if !self.is_working_day(date) {
            return false;
        }
        !Self::in_spans(&date, spans)
    }

    /// Whether the resource can work on the day: it is active, the day lies within
    /// its period of work, falls from Monday to Friday, and lies in none of its
    /// absences (each from its local first day to its local last day).
    pub fn is_available_on_date(&self, date: Date) -> (b: bool)
        requires
            date.wf(),
            self.vacations_in_range(),
        ensures
            exists|s: Seq<DaySpan>| s.len() == self.vacation_count() && b == self.available_given(date.day(), s),
    {
        let spans = self.vacation_spans();
        self.is_available_given(date, &spans)
    }

    /// Whether the resource can work on every day from `start` to `end`, both
    /// included, given the local days of its absences.
    pub fn is_available_during_given(&self, start: Date, end: Date, spans: &Vec<DaySpan>) -> (b: bool)
        requires
            start.wf(),
            end.wf(),
        ensures
            b == forall|d: int| start.day() <= d <= end.day() ==> #[trigger] self.available_given(d, spans@),
    {
        if end.before(&start) {
            return true;
        }
        proof {
            start.lemma_in_range();
            end.lemma_in_range();
        }
        let mut current = start;
        loop
            invariant
                start.day() <= current.day() <= end.day(),
                current.wf(),
                end.wf(),
                forall|d: int| start.day() <= d < current.day() ==> #[trigger] self.available_given(d, spans@),
            decreases end.day() - current.day(),
        {
            if !self.is_available_given(current, spans) {
                return false;
            }
            if !current.before(&end) {
                proof {
                    assert forall|d: int| start.day() <= d <= end.day() implies #[trigger] self.available_given(d, spans@) by {
                        if d == current.day() {
                        }
                    }
                }
                return true;
            }
            proof {
                end.lemma_in_range();
                current.lemma_in_range();
                assert(in_range(current.day() + 1));
            }
            current = current.checked_add_days(1).unwrap();
        }
    }

    /// Whether the resource can work on every day from `start` to `end`, both
    /// included; the local days of its absences are taken once.
    pub fn is_available_during_period(&self, start: Date, end: Date) -> (b: bool)
        requires
            start.wf(),
            end.wf(),
            self.vacations_in_range(),
        ensures
            exists|s: Seq<DaySpan>| s.len() == self.vacation_count()
                && b == forall|d: int| start.day() <= d <= end.day() ==> #[trigger] self.available_given(d, s),
    {
        let spans = self.vacation_spans();
        self.is_available_during_given(start, end, &spans)
    }

    /// The hours of time off left to the resource.
    pub fn time_off_balance(&self) -> (r: u32)
        ensures
            r == match self {
                AnyResource::Available(x) => x.time_off_balance,
                AnyResource::Assigned(x) => x.time_off_balance,
                AnyResource::Inactive(x) => x.time_off_balance,
            },
    {
        match self {
            AnyResource::Available(r) => r.time_off_balance,
            AnyResource::Assigned(r) => r.time_off_balance,
            AnyResource::Inactive(r) => r.time_off_balance,
        }
    }

    /// The e-mail address of the resource, if it has one.
    pub fn email(&self) -> (r: Option<&str>)
        ensures
            match (match self {
                AnyResource::Available(x) => x.email,
                AnyResource::Assigned(x) => x.email,
                AnyResource::Inactive(x) => x.email,
            }) {
                Some(e) => r matches Some(x) && x@ == e@,
                None => r is None,
            },
    {
        match self {
            AnyResource::Available(r) => r.email(),
            AnyResource::Assigned(r) => r.email(),
            AnyResource::Inactive(r) => r.email(),
        }
    }

    /// The readable name of the state: "Available", "Assigned" or "Inactive".
    pub fn status(&self) -> (r: &str)
        ensures
            r@ == self.status_spec(),
    {
        match self {
            AnyResource::Available(_) => "Available",
            AnyResource::Assigned(_) => "Assigned",
            AnyResource::Inactive(_) => "Inactive",
        }
    }
}

impl From<Resource<Available>> for AnyResource {
    fn from(resource: Resource<Available>) -> (r: AnyResource) {
        AnyResource::Available(resource)
    }
}

impl FromSpecImpl<Resource<Available>> for AnyResource {
    open spec fn obeys_from_spec() -> bool {
        true
    }

    open spec fn from_spec(v: Resource<Available>) -> AnyResource {
        AnyResource::Available(v)
    }
}

impl From<Resource<Assigned>> for AnyResource {
    fn from(resource: Resource<Assigned>) -> (r: AnyResource) {
        AnyResource::Assigned(resource)
    }
}

impl FromSpecImpl<Resource<Assigned>> for AnyResource {
    open spec fn obeys_from_spec() -> bool {
        true
    }

    open spec fn from_spec(v: Resource<Assigned>) -> AnyResource {
        AnyResource::Assigned(v)
    }
}

impl From<Resource<Inactive>> for AnyResource {
    fn from(resource: Resource<Inactive>) -> (r: AnyResource) {
        AnyResource::Inactive(resource)
    }
}

impl FromSpecImpl<Resource<Inactive>> for AnyResource {
    open spec fn obeys_from_spec() -> bool {
        true
    }

    open spec fn from_spec(v: Resource<Inactive>) -> AnyResource {
        AnyResource::Inactive(v)
    }
}

} // verus!
