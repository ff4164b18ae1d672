use vstd::prelude::*;

use crate::errors::Error;
use crate::store::{contains_principal, copy_list, IdIndex};

verus! {

/// One salary stream: a fixed total vests linearly over a fixed duration.
/// `rate_per_second` is the truncating quotient `total_amount /
/// duration_seconds`, fixed at creation; the truncation shortfall is never
/// separately credited. Pausing gates withdrawal only: elapsed time keeps
/// running from the unmodified `start_time`.
#[derive(Clone, Copy, Debug, PartialEq, Eq, Structural)]
pub struct SalaryStream {
    pub id: u32,
    pub employer: u64,
    pub employee: u64,
    pub total_amount: i128,
    pub rate_per_second: i128,
    pub start_time: u64,
    pub duration_seconds: u64,
    pub withdrawn_amount: i128,
    pub is_active: bool,
    pub is_paused: bool,
}

/// One employee record, keyed by the employee principal. Re-registering
/// fully replaces the record and resets `end_date` and `is_active`.
#[derive(Clone, Debug)]
pub struct EmployeeInfo {
    pub address: u64,
    pub name: String,
    pub email: String,
    pub phone: String,
    pub position: String,
    pub department: String,
    pub employer: u64,
    pub registration_time: u64,
    pub start_date: u64,
    pub end_date: Option<u64>,
    pub is_active: bool,
}

impl EmployeeInfo {
    /// A copy of the record.
    pub fn duplicate(&self) -> (r: Self)
        ensures
            r == *self,
    {
        EmployeeInfo {
            address: self.address,
            name: self.name.clone(),
            email: self.email.clone(),
            phone: self.phone.clone(),
            position: self.position.clone(),
            department: self.department.clone(),
            employer: self.employer,
            registration_time: self.registration_time,
            start_date: self.start_date,
            end_date: self.end_date,
            is_active: self.is_active,
        }
    }
}

/// Per-record validity of a stream: the duration is positive (division
/// safety), the rate is the truncating quotient fixed at creation, and the
/// withdrawal ledger stays between zero and the total.
pub open spec fn stream_valid(s: SalaryStream) -> bool {
    &&& s.total_amount >= 0
    &&& s.duration_seconds > 0
    &&& s.rate_per_second == s.total_amount as int / s.duration_seconds as int
    &&& 0 <= s.withdrawn_amount <= s.total_amount
}

/// Wall-clock seconds elapsed since the stream started, saturating at zero
/// for a clock reading before the start.
pub open spec fn elapsed_at(s: SalaryStream, now: u64) -> int {
    if now >= s.start_time {
        now - s.start_time
    } else {
        0
    }
}

/// What the stream has earned by `now`: linear accrual capped at the total.
pub open spec fn earned_at(s: SalaryStream, now: u64) -> int {
    let linear = s.rate_per_second * elapsed_at(s, now);
    if linear > s.total_amount {
        s.total_amount as int
    } else {
        linear
    }
}

/// The balance available for withdrawal at `now`: zero for an ended or
/// paused stream, otherwise what is earned minus what was already withdrawn,
/// floored at zero. Value accrues linearly in wall-clock time, capped at the
/// fixed total; pausing blocks withdrawal without slowing accrual.
pub open spec fn available_of(s: SalaryStream, now: u64) -> int {
    if !s.is_active || s.is_paused {
        0
    } else {
        let a = earned_at(s, now) - s.withdrawn_amount;
        if a < 0 {
            0
        } else {
            a
        }
    }
}

/// The ids of the streams paying `employee`, in creation order.
pub open spec fn stream_ids_of_employee(streams: Seq<SalaryStream>, employee: u64) -> Seq<u32>
    decreases streams.len(),
{
    if streams.len() == 0 {
        Seq::empty()
    } else {
        let prefix = stream_ids_of_employee(streams.drop_last(), employee);
        if streams.last().employee == employee {
            prefix.push(streams.last().id)
        } else {
            prefix
        }
    }
}

/// The ids of the streams funded by `employer`, in creation order.
pub open spec fn stream_ids_of_employer(streams: Seq<SalaryStream>, employer: u64) -> Seq<u32>
    decreases streams.len(),
{
    if streams.len() == 0 {
        Seq::empty()
    } else {
        let prefix = stream_ids_of_employer(streams.drop_last(), employer);
        if streams.last().employer == employer {
            prefix.push(streams.last().id)
        } else {
            prefix
        }
    }
}

/// The streams paying `employee`, in creation order.
pub open spec fn streams_of_employee(streams: Seq<SalaryStream>, employee: u64) -> Seq<SalaryStream>
    decreases streams.len(),
{
    if streams.len() == 0 {
        Seq::empty()
    } else {
        let prefix = streams_of_employee(streams.drop_last(), employee);
        if streams.last().employee == employee {
            prefix.push(streams.last())
        } else {
            prefix
        }
    }
}

/// Whether some record for `employee` is in the registry.
pub open spec fn has_employee(employees: Seq<EmployeeInfo>, employee: u64) -> bool {
    exists|i: int| 0 <= i < employees.len() && employees[i].address == employee
}

/// Whether `rec` is the registry record stored for `addr`.
pub open spec fn record_for(employees: Seq<EmployeeInfo>, addr: u64, rec: EmployeeInfo) -> bool {
    exists|i: int|
        0 <= i < employees.len() && (#[trigger] employees[i]).address == addr && rec == employees[i]
}

/// Appending a stream extends the id lists of exactly its two parties.
pub proof fn lemma_stream_ids_push(streams: Seq<SalaryStream>, s: SalaryStream)
    ensures
        stream_ids_of_employee(streams.push(s), s.employee) == stream_ids_of_employee(
            streams,
            s.employee,
        ).push(s.id),
        forall|e: u64|
            e != s.employee ==> stream_ids_of_employee(streams.push(s), e)
                == stream_ids_of_employee(streams, e),
        stream_ids_of_employer(streams.push(s), s.employer) == stream_ids_of_employer(
            streams,
            s.employer,
        ).push(s.id),
        forall|e: u64|
            e != s.employer ==> stream_ids_of_employer(streams.push(s), e)
                == stream_ids_of_employer(streams, e),
        streams_of_employee(streams.push(s), s.employee) == streams_of_employee(
            streams,
            s.employee,
        ).push(s),
        forall|e: u64|
            e != s.employee ==> streams_of_employee(streams.push(s), e) == streams_of_employee(
                streams,
                e,
            ),
{
    assert(streams.push(s).drop_last() =~= streams);
}

/// Replacing one stream by a record with the same id and parties leaves
/// every id list unchanged.
pub proof fn lemma_stream_ids_update(streams: Seq<SalaryStream>, i: int, s: SalaryStream, e: u64)
    requires
        0 <= i < streams.len(),
        s.employee == streams[i].employee,
        s.employer == streams[i].employer,
        s.id == streams[i].id,
    ensures
        stream_ids_of_employee(streams.update(i, s), e) == stream_ids_of_employee(streams, e),
        stream_ids_of_employer(streams.update(i, s), e) == stream_ids_of_employer(streams, e),
    decreases streams.len(),
{
    let n = streams.len() as int;
    if i == n - 1 {
        assert(streams.update(i, s).drop_last() =~= streams.drop_last());
    } else {
        assert(streams.update(i, s).drop_last() =~= streams.drop_last().update(i, s));
        lemma_stream_ids_update(streams.drop_last(), i, s, e);
    }
}

/// In a book with dense ids, the id list of an employee resolves, id by id,
/// to exactly that employee's streams, in order.
proof fn lemma_ids_resolve_employee(streams: Seq<SalaryStream>, e: u64)
    requires
        forall|i: int| 0 <= i < streams.len() ==> (#[trigger] streams[i]).id == i + 1,
    ensures
        stream_ids_of_employee(streams, e).len() == streams_of_employee(streams, e).len(),
        forall|k: int|
            0 <= k < stream_ids_of_employee(streams, e).len() ==> 1 <= #[trigger] stream_ids_of_employee(
                streams,
                e,
            )[k] <= streams.len() && streams_of_employee(streams, e)[k] == streams[
                stream_ids_of_employee(streams, e)[k] - 1],
    decreases streams.len(),
{
    if streams.len() > 0 {
        let prefix = streams.drop_last();
        assert(forall|i: int| 0 <= i < prefix.len() ==> (#[trigger] prefix[i]).id == i + 1);
        lemma_ids_resolve_employee(prefix, e);
        assert(forall|j: int| 0 <= j < prefix.len() ==> streams[j] == prefix[j]);
    }
}

/// After replacing one registry record by one with the same address,
/// addresses stay pairwise distinct and every roster member still has a
/// record.
proof fn lemma_registry_update(
    roster: IdIndex<u64>,
    oe: Seq<EmployeeInfo>,
    ne: Seq<EmployeeInfo>,
    i: int,
)
    requires
        0 <= i < oe.len(),
        ne == oe.update(i, ne[i]),
        ne[i].address == oe[i].address,
        forall|p: int, q: int| 0 <= p < q < oe.len() ==> oe[p].address != oe[q].address,
        forall|o: u64, k: int|
            0 <= k < roster.ids_of(o).len() ==> has_employee(
                oe,
                #[trigger] roster.ids_of(o)[k],
            ),
    ensures
        forall|p: int, q: int| 0 <= p < q < ne.len() ==> ne[p].address != ne[q].address,
        forall|o: u64, k: int|
            0 <= k < roster.ids_of(o).len() ==> has_employee(
                ne,
                #[trigger] roster.ids_of(o)[k],
            ),
{
    assert(forall|j: int| 0 <= j < oe.len() ==> ne[j].address == oe[j].address);
    assert forall|o: u64, k: int| 0 <= k < roster.ids_of(o).len() implies has_employee(
        ne,
        #[trigger] roster.ids_of(o)[k],
    ) by {
        let m = roster.ids_of(o)[k];
        let w = choose|j: int| 0 <= j < oe.len() && oe[j].address == m;
        assert(ne[w].address == m);
    }
}

/// The salary-streaming engine: counter-assigned stream records with
/// per-party indices, and an employee roster per employer. Every mutating
/// operation is all-or-nothing: on an error the state is unchanged.
pub struct SalaryStreamingContract {
    pub streams: Vec<SalaryStream>,
    pub employee_index: IdIndex<u32>,
    pub employer_index: IdIndex<u32>,
    pub employees: Vec<EmployeeInfo>,
    pub employer_employees: IdIndex<u64>,
}

impl SalaryStreamingContract {
    /// Internal consistency of the engine:
    /// - stream ids are dense, assigned by the counter from 1;
    /// - every stream record is valid (`stream_valid`);
    /// - the employee and employer indices list exactly each party's stream
    ///   ids, in creation order;
    /// - the registry holds at most one record per employee;
    /// - each employer's roster lists a principal at most once, and only
    ///   principals that have a registry record (an employee re-registered
    ///   under another employer stays on the old roster).
    pub open spec fn wf(self) -> bool {
        &&& self.streams@.len() <= u32::MAX
        &&& forall|i: int|
            0 <= i < self.streams@.len() ==> (#[trigger] self.streams@[i]).id == i + 1
        &&& forall|i: int| 0 <= i < self.streams@.len() ==> stream_valid(#[trigger] self.streams@[i])
        &&& self.employee_index.wf()
        &&& forall|e: u64|
            #[trigger] self.employee_index.ids_of(e) == stream_ids_of_employee(self.streams@, e)
        &&& self.employer_index.wf()
        &&& forall|e: u64|
            #[trigger] self.employer_index.ids_of(e) == stream_ids_of_employer(self.streams@, e)
        &&& forall|i: int, j: int|
            0 <= i < j < self.employees@.len() ==> self.employees@[i].address
                != self.employees@[j].address
        &&& self.employer_employees.wf()
        &&& forall|o: u64, k1: int, k2: int|
            0 <= k1 < k2 < self.employer_employees.ids_of(o).len()
                ==> #[trigger] self.employer_employees.ids_of(o)[k1]
                != #[trigger] self.employer_employees.ids_of(o)[k2]
        &&& forall|o: u64, k: int|
            0 <= k < self.employer_employees.ids_of(o).len() ==> has_employee(
                self.employees@,
                #[trigger] self.employer_employees.ids_of(o)[k],
            )
    }

    /// A fresh engine: no streams, no employees.
    pub fn new() -> (s: Self)
        ensures
            s.wf(),
            s.streams@.len() == 0,
            s.employees@.len() == 0,
            forall|o: u64| s.employer_employees.ids_of(o) == Seq::<u64>::empty(),
    {
        let s = SalaryStreamingContract {
            streams: Vec::new(),
            employee_index: IdIndex::new(),
            employer_index: IdIndex::new(),
            employees: Vec::new(),
            employer_employees: IdIndex::new(),
        };
        s
    }

    /// The position of `employee`'s record in the registry, if any.
    fn find_employee_index(&self, employee: u64) -> (r: Option<usize>)
        ensures
            r is Some <==> has_employee(self.employees@, employee),
            r matches Some(i) ==> i < self.employees@.len() && self.employees@[i as int].address
                == employee,
    {
        let n = self.employees.len();
        let mut i: usize = 0;
        #[verifier::loop_isolation(false)]
        while i < n
            invariant
                i <= n,
                forall|j: int| 0 <= j < i ==> self.employees@[j].address != employee,
            decreases n - i,
        {
            if self.employees[i].address == employee {
                return Some(i);
            }
            i += 1;
        }
        None
    }

    /// Registers (or fully re-registers) `employee` under `employer`. The
    /// caller must have authorized as `employer`; `now` is the host clock.
    ///
    /// The record is written fresh — active, with no end date — replacing
    /// any previous record for the same principal, whoever its employer was.
    /// The employer's roster gains the principal unless it already lists it;
    /// no other roster changes.
    pub fn register_employee(
        &mut self,
        employer: u64,
        employee: u64,
        name: String,
        email: String,
        phone: String,
        position: String,
        department: String,
        start_date: u64,
        now: u64,
    )
        requires
            old(self).wf(),
        ensures
            final(self).wf(),
            ({
                let entry = EmployeeInfo {
                    address: employee,
                    name,
                    email,
                    phone,
                    position,
                    department,
                    employer,
                    registration_time: now,
                    start_date,
                    end_date: None,
                    is_active: true,
                };
                if has_employee(old(self).employees@, employee) {
                    exists|i: int|
                        0 <= i < old(self).employees@.len() && old(self).employees@[i].address
                            == employee && final(self).employees@ == old(self).employees@.update(
                            i,
                            entry,
                        )
                } else {
                    final(self).employees@ == old(self).employees@.push(entry)
                }
            }),
            old(self).employer_employees.ids_of(employer).contains(employee)
                ==> final(self).employer_employees == old(self).employer_employees,
            !old(self).employer_employees.ids_of(employer).contains(employee) ==> {
                &&& final(self).employer_employees.ids_of(employer)
                    == old(self).employer_employees.ids_of(employer).push(employee)
                &&& forall|o: u64|
                    o != employer ==> final(self).employer_employees.ids_of(o)
                        == old(self).employer_employees.ids_of(o)
            },
            final(self).streams == old(self).streams,
            final(self).employee_index == old(self).employee_index,
            final(self).employer_index == old(self).employer_index,
    {
        let entry = EmployeeInfo {
            address: employee,
            name,
            email,
            phone,
            position,
            department,
            employer,
            registration_time: now,
            start_date,
            end_date: None,
            is_active: true,
        };
        match self.find_employee_index(employee) {
            Some(i) => {
                self.employees[i] = entry;
            },
            None => {
                self.employees.push(entry);
            },
        }
        let members = self.employer_employees.get_ids(employer);
        if !contains_principal(&members, employee) {
            self.employer_employees.push_id(employer, employee);
        }
        proof {
            let oe = old(self).employees@;
            let ne = self.employees@;
            // Addresses are preserved position by position, and the new or
            // replaced record carries the employee's address.
            assert(forall|j: int| 0 <= j < oe.len() ==> ne[j].address == oe[j].address);
            if has_employee(oe, employee) {
                let w = choose|j: int| 0 <= j < oe.len() && oe[j].address == employee;
                assert(ne[w].address == employee);
            } else {
                assert(ne[oe.len() as int].address == employee);
            }
            assert(has_employee(ne, employee));
            assert forall|o: u64, k: int|
                0 <= k < self.employer_employees.ids_of(o).len() implies has_employee(
                ne,
                #[trigger] self.employer_employees.ids_of(o)[k],
            ) by {
                let m = self.employer_employees.ids_of(o)[k];
                if m != employee {
                    assert(old(self).employer_employees.ids_of(o)[k] == m);
                    assert(has_employee(oe, m));
                    let w = choose|j: int| 0 <= j < oe.len() && oe[j].address == m;
                    assert(ne[w].address == m);
                }
            }
        }
    }

    /// Returns a copy of `employee`'s registry record, or `NotFound`.
    pub fn get_employee_info(&self, employee: u64) -> (r: Result<EmployeeInfo, Error>)
        requires
            self.wf(),
        ensures
            r is Ok <==> has_employee(self.employees@, employee),
            !has_employee(self.employees@, employee) ==> r == Err::<EmployeeInfo, Error>(
                Error::NotFound,
            ),
            r matches Ok(e) ==> exists|i: int|
                0 <= i < self.employees@.len() && (#[trigger] self.employees@[i]).address
                    == employee && e == self.employees@[i],
    {
        match self.find_employee_index(employee) {
            Some(i) => Ok(self.employees[i].duplicate()),
            None => Err(Error::NotFound),
        }
    }

    /// Updates the name, contact and position fields of `employee`'s record.
    /// The caller must have authorized as `employer` and must be the
    /// employer on the record.
    pub fn update_employee_info(
        &mut self,
        employer: u64,
        employee: u64,
        name: String,
        email: String,
        phone: String,
        position: String,
        department: String,
    ) -> (r: Result<(), Error>)
        requires
            old(self).wf(),
        ensures
            final(self).wf(),
            r is Err ==> *final(self) == *old(self),
            !has_employee(old(self).employees@, employee) ==> r == Err::<(), Error>(
                Error::NotFound,
            ),
            forall|i: int|
                0 <= i < old(self).employees@.len() && (#[trigger] old(self).employees@[i]).address
                    == employee ==> {
                    let rec = old(self).employees@[i];
                    &&& rec.employer != employer ==> r == Err::<(), Error>(Error::Unauthorized)
                    &&& rec.employer == employer ==> {
                        &&& r == Ok::<(), Error>(())
                        &&& final(self).employees@ == old(self).employees@.update(
                            i,
                            EmployeeInfo { name, email, phone, position, department, ..rec },
                        )
                    }
                },
            final(self).streams == old(self).streams,
            final(self).employee_index == old(self).employee_index,
            final(self).employer_index == old(self).employer_index,
            final(self).employer_employees == old(self).employer_employees,
    {
        let i = match self.find_employee_index(employee) {
            Some(i) => i,
            None => {
                return Err(Error::NotFound);
            },
        };
        if self.employees[i].employer != employer {
            return Err(Error::Unauthorized);
        }
        self.employees[i].name = name;
        self.employees[i].email = email;
        self.employees[i].phone = phone;
        self.employees[i].position = position;
        self.employees[i].department = department;
        proof {
            assert(self.employees@ =~= old(self).employees@.update(
                i as int,
                self.employees@[i as int],
            ));
            lemma_registry_update(
                self.employer_employees,
                old(self).employees@,
                self.employees@,
                i as int,
            );
        }
        Ok(())
    }

    /// Terminates `employee`: the record becomes inactive and its end date
    /// is set to `now`. The caller must have authorized as `employer` and
    /// must be the employer on the record.
    pub fn deactivate_employee(&mut self, employer: u64, employee: u64, now: u64) -> (r: Result<
        (),
        Error,
    >)
        requires
            old(self).wf(),
        ensures
            final(self).wf(),
            r is Err ==> *final(self) == *old(self),
            !has_employee(old(self).employees@, employee) ==> r == Err::<(), Error>(
                Error::NotFound,
            ),
            forall|i: int|
                0 <= i < old(self).employees@.len() && (#[trigger] old(self).employees@[i]).address
                    == employee ==> {
                    let rec = old(self).employees@[i];
                    &&& rec.employer != employer ==> r == Err::<(), Error>(Error::Unauthorized)
                    &&& rec.employer == employer ==> {
                        &&& r == Ok::<(), Error>(())
                        &&& final(self).employees@ == old(self).employees@.update(
                            i,
                            EmployeeInfo { is_active: false, end_date: Some(now), ..rec },
                        )
                    }
                },
            final(self).streams == old(self).streams,
            final(self).employee_index == old(self).employee_index,
            final(self).employer_index == old(self).employer_index,
            final(self).employer_employees == old(self).employer_employees,
    {
        let i = match self.find_employee_index(employee) {
            Some(i) => i,
            None => {
                return Err(Error::NotFound);
            },
        };
        if self.employees[i].employer != employer {
            return Err(Error::Unauthorized);
        }
        self.employees[i].is_active = false;
        self.employees[i].end_date = Some(now);
        proof {
            assert(self.employees@ =~= old(self).employees@.update(
                i as int,
                self.employees@[i as int],
            ));
            lemma_registry_update(
                self.employer_employees,
                old(self).employees@,
                self.employees@,
                i as int,
            );
        }
        Ok(())
    }

    /// Rehires `employee`: the record becomes active again and its end date
    /// is cleared. The caller must have authorized as `employer` and must be
    /// the employer on the record.
    pub fn reactivate_employee(&mut self, employer: u64, employee: u64) -> (r: Result<(), Error>)
        requires
            old(self).wf(),
        ensures
            final(self).wf(),
            r is Err ==> *final(self) == *old(self),
            !has_employee(old(self).employees@, employee) ==> r == Err::<(), Error>(
                Error::NotFound,
            ),
            forall|i: int|
                0 <= i < old(self).employees@.len() && (#[trigger] old(self).employees@[i]).address
                    == employee ==> {
                    let rec = old(self).employees@[i];
                    &&& rec.employer != employer ==> r == Err::<(), Error>(Error::Unauthorized)
                    &&& rec.employer == employer ==> {
                        &&& r == Ok::<(), Error>(())
                        &&& final(self).employees@ == old(self).employees@.update(
                            i,
                            EmployeeInfo { is_active: true, end_date: None, ..rec },
                        )
                    }
                },
            final(self).streams == old(self).streams,
            final(self).employee_index == old(self).employee_index,
            final(self).employer_index == old(self).employer_index,
            final(self).employer_employees == old(self).employer_employees,
    {
        let i = match self.find_employee_index(employee) {
            Some(i) => i,
            None => {
                return Err(Error::NotFound);
            },
        };
        if self.employees[i].employer != employer {
            return Err(Error::Unauthorized);
        }
        self.employees[i].is_active = true;
        self.employees[i].end_date = None;
        proof {
            assert(self.employees@ =~= old(self).employees@.update(
                i as int,
                self.employees@[i as int],
            ));
            lemma_registry_update(
                self.employer_employees,
                old(self).employees@,
                self.employees@,
                i as int,
            );
        }
        Ok(())
    }

    /// Updates the position and department of `employee`'s record. The
    /// caller must have authorized as `employer` and must be the employer on
    /// the record.
    pub fn update_employee_position(
        &mut self,
        employer: u64,
        employee: u64,
        position: String,
        department: String,
    ) -> (r: Result<(), Error>)
        requires
            old(self).wf(),
        ensures
            final(self).wf(),
            r is Err ==> *final(self) == *old(self),
            !has_employee(old(self).employees@, employee) ==> r == Err::<(), Error>(
                Error::NotFound,
            ),
            forall|i: int|
                0 <= i < old(self).employees@.len() && (#[trigger] old(self).employees@[i]).address
                    == employee ==> {
                    let rec = old(self).employees@[i];
                    &&& rec.employer != employer ==> r == Err::<(), Error>(Error::Unauthorized)
                    &&& rec.employer == employer ==> {
                        &&& r == Ok::<(), Error>(())
                        &&& final(self).employees@ == old(self).employees@.update(
                            i,
                            EmployeeInfo { position, department, ..rec },
                        )
                    }
                },
            final(self).streams == old(self).streams,
            final(self).employee_index == old(self).employee_index,
            final(self).employer_index == old(self).employer_index,
            final(self).employer_employees == old(self).employer_employees,
    {
        let i = match self.find_employee_index(employee) {
            Some(i) => i,
            None => {
                return Err(Error::NotFound);
            },
        };
        if self.employees[i].employer != employer {
            return Err(Error::Unauthorized);
        }
        self.employees[i].position = position;
        self.employees[i].department = department;
        proof {
            assert(self.employees@ =~= old(self).employees@.update(
                i as int,
                self.employees@[i as int],
            ));
            lemma_registry_update(
                self.employer_employees,
                old(self).employees@,
                self.employees@,
                i as int,
            );
        }
        Ok(())
    }

    /// The registry records of the principals on `employer`'s roster, in
    /// roster order. A record re-registered under another employer still
    /// appears here, with its current contents.
    pub fn get_employer_employees(&self, employer: u64) -> (r: Vec<EmployeeInfo>)
        requires
            self.wf(),
        ensures
            r@.len() == self.employer_employees.ids_of(employer).len(),
            forall|k: int|
                0 <= k < r@.len() ==> record_for(
                    self.employees@,
                    self.employer_employees.ids_of(employer)[k],
                    #[trigger] r@[k],
                ),
    {
        let members = self.employer_employees.get_ids(employer);
        let n = members.len();
        let mut r: Vec<EmployeeInfo> = Vec::new();
        let mut k: usize = 0;
        #[verifier::loop_isolation(false)]
        while k < n
            invariant
                k <= n,
                r@.len() == k,
                forall|m: int|
                    0 <= m < k ==> record_for(
                        self.employees@,
                        self.employer_employees.ids_of(employer)[m],
                        #[trigger] r@[m],
                    ),
            decreases n - k,
        {
            match self.find_employee_index(members[k]) {
                Some(i) => {
                    r.push(self.employees[i].duplicate());
                },
                None => {
                    proof {
                        assert(has_employee(
                            self.employees@,
                            self.employer_employees.ids_of(employer)[k as int],
                        ));
                        assert(false);
                    }
                },
            }
            k += 1;
        }
        r
    }
}

impl SalaryStreamingContract {
    /// After replacing one stream by a record with the same id and parties,
    /// the party indices still match the stream book.
    proof fn lemma_after_stream_update(self, os: Seq<SalaryStream>, i: int)
        requires
            0 <= i < os.len(),
            self.streams@ == os.update(i, self.streams@[i]),
            self.streams@[i].employee == os[i].employee,
            self.streams@[i].employer == os[i].employer,
            self.streams@[i].id == os[i].id,
            forall|e: u64|
                #[trigger] self.employee_index.ids_of(e) == stream_ids_of_employee(os, e),
            forall|e: u64|
                #[trigger] self.employer_index.ids_of(e) == stream_ids_of_employer(os, e),
        ensures
            forall|e: u64|
                #[trigger] self.employee_index.ids_of(e) == stream_ids_of_employee(
                    self.streams@,
                    e,
                ),
            forall|e: u64|
                #[trigger] self.employer_index.ids_of(e) == stream_ids_of_employer(
                    self.streams@,
                    e,
                ),
    {
        assert forall|e: u64| #[trigger] self.employee_index.ids_of(e) == stream_ids_of_employee(
            self.streams@,
            e,
        ) by {
            lemma_stream_ids_update(os, i, self.streams@[i], e);
        }
        assert forall|e: u64| #[trigger] self.employer_index.ids_of(e) == stream_ids_of_employer(
            self.streams@,
            e,
        ) by {
            lemma_stream_ids_update(os, i, self.streams@[i], e);
        }
    }

    /// Creates a salary stream vesting `total_amount` linearly over
    /// `duration_seconds`, starting at `now`. The caller must have
    /// authorized as `employer`. The per-second rate is the truncating
    /// quotient, so `rate_per_second * duration_seconds` may fall short of
    /// the total when it does not divide evenly; the shortfall is never
    /// separately credited. A zero duration is a fatal misuse (division),
    /// ruled out by precondition. Returns the new stream's id.
    pub fn create_stream(
        &mut self,
        employer: u64,
        employee: u64,
        total_amount: i128,
        duration_seconds: u64,
        now: u64,
    ) -> (r: u32)
        requires
            old(self).wf(),
            old(self).streams@.len() < u32::MAX,
            total_amount >= 0,
            duration_seconds > 0,
        ensures
            final(self).wf(),
            r == old(self).streams@.len() + 1,
            final(self).streams@ == old(self).streams@.push(
                SalaryStream {
                    id: r,
                    employer,
                    employee,
                    total_amount,
                    rate_per_second: (total_amount as int / duration_seconds as int) as i128,
                    start_time: now,
                    duration_seconds,
                    withdrawn_amount: 0,
                    is_active: true,
                    is_paused: false,
                },
            ),
            final(self).employees == old(self).employees,
            final(self).employer_employees == old(self).employer_employees,
    {
        let id = (self.streams.len() + 1) as u32;
        proof {
            vstd::arithmetic::div_mod::lemma_div_pos_is_pos(
                total_amount as int,
                duration_seconds as int,
            );
            vstd::arithmetic::div_mod::lemma_div_nonincreasing(
                total_amount as int,
                duration_seconds as int,
            );
        }
        let rate = ((total_amount as u128) / (duration_seconds as u128)) as i128;
        let stream = SalaryStream {
            id,
            employer,
            employee,
            total_amount,
            rate_per_second: rate,
            start_time: now,
            duration_seconds,
            withdrawn_amount: 0,
            is_active: true,
            is_paused: false,
        };
        self.streams.push(stream);
        self.employee_index.push_id(employee, id);
        self.employer_index.push_id(employer, id);
        proof {
            let os = old(self).streams@;
            lemma_stream_ids_push(os, stream);
            assert forall|e: u64| #[trigger] self.employee_index.ids_of(e)
                == stream_ids_of_employee(self.streams@, e) by {
                if e != employee {
                    assert(stream_ids_of_employee(os.push(stream), e) == stream_ids_of_employee(
                        os,
                        e,
                    ));
                }
            }
            assert forall|e: u64| #[trigger] self.employer_index.ids_of(e)
                == stream_ids_of_employer(self.streams@, e) by {
                if e != employer {
                    assert(stream_ids_of_employer(os.push(stream), e) == stream_ids_of_employer(
                        os,
                        e,
                    ));
                }
            }
        }
        id
    }

    /// Pauses a stream: withdrawal is blocked while paused, but elapsed time
    /// keeps running from the unmodified start time. The caller must have
    /// authorized as the stream's employer. Safe to repeat.
    pub fn pause_stream(&mut self, caller: u64, stream_id: u32) -> (r: Result<(), Error>)
        requires
            old(self).wf(),
        ensures
            final(self).wf(),
            r is Err ==> *final(self) == *old(self),
            !(1 <= stream_id <= old(self).streams@.len()) ==> r == Err::<(), Error>(
                Error::NotFound,
            ),
            1 <= stream_id <= old(self).streams@.len() ==> ({
                let s = old(self).streams@[stream_id - 1];
                &&& s.employer != caller ==> r == Err::<(), Error>(Error::Unauthorized)
                &&& s.employer == caller ==> {
                    &&& r == Ok::<(), Error>(())
                    &&& final(self).streams@ == old(self).streams@.update(
                        stream_id - 1,
                        (SalaryStream { is_paused: true, ..s }),
                    )
                    &&& final(self).employees == old(self).employees
                    &&& final(self).employer_employees == old(self).employer_employees
                }
            }),
    {
        if !(stream_id >= 1 && (stream_id as usize) <= self.streams.len()) {
            return Err(Error::NotFound);
        }
        let idx = (stream_id - 1) as usize;
        if self.streams[idx].employer != caller {
            return Err(Error::Unauthorized);
        }
        self.streams[idx].is_paused = true;
        proof {
            self.lemma_after_stream_update(old(self).streams@, idx as int);
        }
        Ok(())
    }

    /// Resumes a paused stream: withdrawal is unblocked and the balance is
    /// whatever has accrued from the original start time, paused intervals
    /// included. The caller must have authorized as the stream's employer.
    /// Safe to repeat.
    pub fn resume_stream(&mut self, caller: u64, stream_id: u32) -> (r: Result<(), Error>)
        requires
            old(self).wf(),
        ensures
            final(self).wf(),
            r is Err ==> *final(self) == *old(self),
            !(1 <= stream_id <= old(self).streams@.len()) ==> r == Err::<(), Error>(
                Error::NotFound,
            ),
            1 <= stream_id <= old(self).streams@.len() ==> ({
                let s = old(self).streams@[stream_id - 1];
                &&& s.employer != caller ==> r == Err::<(), Error>(Error::Unauthorized)
                &&& s.employer == caller ==> {
                    &&& r == Ok::<(), Error>(())
                    &&& final(self).streams@ == old(self).streams@.update(
                        stream_id - 1,
                        (SalaryStream { is_paused: false, ..s }),
                    )
                    &&& final(self).employees == old(self).employees
                    &&& final(self).employer_employees == old(self).employer_employees
                }
            }),
    {
        if !(stream_id >= 1 && (stream_id as usize) <= self.streams.len()) {
            return Err(Error::NotFound);
        }
        let idx = (stream_id - 1) as usize;
        if self.streams[idx].employer != caller {
            return Err(Error::Unauthorized);
        }
        self.streams[idx].is_paused = false;
        proof {
            self.lemma_after_stream_update(old(self).streams@, idx as int);
        }
        Ok(())
    }

    /// Ends a stream permanently: no public operation reactivates it. The
    /// caller must have authorized as the stream's employer.
    pub fn end_stream(&mut self, caller: u64, stream_id: u32) -> (r: Result<(), Error>)
        requires
            old(self).wf(),
        ensures
            final(self).wf(),
            r is Err ==> *final(self) == *old(self),
            !(1 <= stream_id <= old(self).streams@.len()) ==> r == Err::<(), Error>(
                Error::NotFound,
            ),
            1 <= stream_id <= old(self).streams@.len() ==> ({
                let s = old(self).streams@[stream_id - 1];
                &&& s.employer != caller ==> r == Err::<(), Error>(Error::Unauthorized)
                &&& s.employer == caller ==> {
                    &&& r == Ok::<(), Error>(())
                    &&& final(self).streams@ == old(self).streams@.update(
                        stream_id - 1,
                        (SalaryStream { is_active: false, ..s }),
                    )
                    &&& final(self).employees == old(self).employees
                    &&& final(self).employer_employees == old(self).employer_employees
                }
            }),
    {
        if !(stream_id >= 1 && (stream_id as usize) <= self.streams.len()) {
            return Err(Error::NotFound);
        }
        let idx = (stream_id - 1) as usize;
        if self.streams[idx].employer != caller {
            return Err(Error::Unauthorized);
        }
        self.streams[idx].is_active = false;
        proof {
            self.lemma_after_stream_update(old(self).streams@, idx as int);
        }
        Ok(())
    }

    /// The balance of one stream record available at `now`, computed without
    /// overflow: linear accrual is capped at the total before it is compared
    /// with what was withdrawn.
    fn available_for(stream: &SalaryStream, now: u64) -> (r: i128)
        requires
            stream_valid(*stream),
        ensures
            r == available_of(*stream, now),
    {
        if !stream.is_active || stream.is_paused {
            return 0;
        }
        let elapsed: u64 = if now >= stream.start_time {
            now - stream.start_time
        } else {
            0
        };
        proof {
            vstd::arithmetic::div_mod::lemma_div_pos_is_pos(
                stream.total_amount as int,
                stream.duration_seconds as int,
            );
            vstd::arithmetic::mul::lemma_mul_nonnegative(
                stream.rate_per_second as int,
                elapsed as int,
            );
        }
        let earned: i128 = match stream.rate_per_second.checked_mul(elapsed as i128) {
            Some(linear) => {
                if linear > stream.total_amount {
                    stream.total_amount
                } else {
                    linear
                }
            },
            None => stream.total_amount,
        };
        let available = earned - stream.withdrawn_amount;
        if available < 0 {
            0
        } else {
            available
        }
    }

    /// The balance available for withdrawal from the stream at `now`: zero
    /// while the stream is ended or paused, otherwise the linear accrual
    /// since `start_time` capped at the total, minus what was already
    /// withdrawn. Fails with `NotFound` for an unknown id.
    pub fn calculate_available(&self, stream_id: u32, now: u64) -> (r: Result<i128, Error>)
        requires
            self.wf(),
        ensures
            !(1 <= stream_id <= self.streams@.len()) ==> r == Err::<i128, Error>(Error::NotFound),
            1 <= stream_id <= self.streams@.len() ==> r == Ok::<i128, Error>(
                available_of(self.streams@[stream_id - 1], now) as i128,
            ),
    {
        if !(stream_id >= 1 && (stream_id as usize) <= self.streams.len()) {
            return Err(Error::NotFound);
        }
        let idx = (stream_id - 1) as usize;
        let stream = self.streams[idx];
        Ok(Self::available_for(&stream, now))
    }

    /// Withdraws `amount` from the stream's available balance. The caller
    /// must have authorized as the stream's employee.
    ///
    /// Fails with `InvalidArgument` for a negative amount and with
    /// `BusinessRuleViolation` when the amount exceeds the available
    /// balance. The withdrawal ledger records the exact requested amount (no
    /// capping, unlike loan repayment) and never decreases. Returns the
    /// amount.
    pub fn withdraw(&mut self, caller: u64, stream_id: u32, amount: i128, now: u64) -> (r: Result<
        i128,
        Error,
    >)
        requires
            old(self).wf(),
        ensures
            final(self).wf(),
            r is Err ==> *final(self) == *old(self),
            !(1 <= stream_id <= old(self).streams@.len()) ==> r == Err::<i128, Error>(
                Error::NotFound,
            ),
            1 <= stream_id <= old(self).streams@.len() ==> ({
                let s = old(self).streams@[stream_id - 1];
                &&& s.employee != caller ==> r == Err::<i128, Error>(Error::Unauthorized)
                &&& (s.employee == caller && amount < 0) ==> r == Err::<i128, Error>(
                    Error::InvalidArgument,
                )
                &&& (s.employee == caller && amount >= 0 && amount > available_of(s, now)) ==> r
                    == Err::<i128, Error>(Error::BusinessRuleViolation)
                &&& (s.employee == caller && 0 <= amount <= available_of(s, now)) ==> {
                    &&& r == Ok::<i128, Error>(amount)
                    &&& final(self).streams@ == old(self).streams@.update(
                        stream_id - 1,
                        (SalaryStream {
                            withdrawn_amount: (s.withdrawn_amount + amount) as i128,
                            ..s
                        }),
                    )
                    &&& final(self).employees == old(self).employees
                    &&& final(self).employer_employees == old(self).employer_employees
                }
            }),
    {
        if !(stream_id >= 1 && (stream_id as usize) <= self.streams.len()) {
            return Err(Error::NotFound);
        }
        let idx = (stream_id - 1) as usize;
        let stream = self.streams[idx];
        if stream.employee != caller {
            return Err(Error::Unauthorized);
        }
        if amount < 0 {
            return Err(Error::InvalidArgument);
        }
        let available = Self::available_for(&stream, now);
        if amount > available {
            return Err(Error::BusinessRuleViolation);
        }
        proof {
            lemma_available_bounds(stream, now);
        }
        self.streams[idx].withdrawn_amount = stream.withdrawn_amount + amount;
        proof {
            self.lemma_after_stream_update(old(self).streams@, idx as int);
        }
        Ok(amount)
    }

    /// Returns the stream with the given id, or `NotFound`.
    pub fn get_stream(&self, stream_id: u32) -> (r: Result<SalaryStream, Error>)
        requires
            self.wf(),
        ensures
            1 <= stream_id <= self.streams@.len() ==> r == Ok::<SalaryStream, Error>(
                self.streams@[stream_id - 1],
            ),
            !(1 <= stream_id <= self.streams@.len()) ==> r == Err::<SalaryStream, Error>(
                Error::NotFound,
            ),
    {
        if stream_id >= 1 && (stream_id as usize) <= self.streams.len() {
            Ok(self.streams[(stream_id - 1) as usize])
        } else {
            Err(Error::NotFound)
        }
    }

    /// The streams paying `employee`, resolved from the employee index, in
    /// creation order.
    pub fn get_employee_streams(&self, employee: u64) -> (r: Vec<SalaryStream>)
        requires
            self.wf(),
        ensures
            r@ == streams_of_employee(self.streams@, employee),
    {
        let ids = self.employee_index.get_ids(employee);
        proof {
            lemma_ids_resolve_employee(self.streams@, employee);
        }
        let n = ids.len();
        let mut r: Vec<SalaryStream> = Vec::new();
        let mut k: usize = 0;
        #[verifier::loop_isolation(false)]
        while k < n
            invariant
                k <= n,
                r@ == streams_of_employee(self.streams@, employee).take(k as int),
            decreases n - k,
        {
            let id = ids[k];
            r.push(self.streams[(id - 1) as usize]);
            proof {
                let full = streams_of_employee(self.streams@, employee);
                assert(full.take(k + 1) =~= full.take(k as int).push(full[k as int]));
            }
            k += 1;
        }
        proof {
            let full = streams_of_employee(self.streams@, employee);
            assert(full.take(n as int) =~= full);
        }
        r
    }

    /// The ids of the streams funded by `employer`, in creation order.
    pub fn get_employer_streams(&self, employer: u64) -> (r: Vec<u32>)
        requires
            self.wf(),
        ensures
            r@ == stream_ids_of_employer(self.streams@, employer),
    {
        self.employer_index.get_ids(employer)
    }

    /// Every stream in the system, in creation order.
    pub fn get_all_streams(&self) -> (r: Vec<SalaryStream>)
        requires
            self.wf(),
        ensures
            r@ == self.streams@,
    {
        copy_list(&self.streams)
    }

    /// Every stream id in the system: 1 up to the current counter.
    pub fn get_all_stream_ids(&self) -> (r: Vec<u32>)
        requires
            self.wf(),
        ensures
            r@.len() == self.streams@.len(),
            forall|k: int| 0 <= k < r@.len() ==> r@[k] == k + 1,
    {
        let n = self.streams.len();
        let mut r: Vec<u32> = Vec::new();
        let mut i: usize = 0;
        #[verifier::loop_isolation(false)]
        while i < n
            invariant
                i <= n,
                r@.len() == i,
                forall|k: int| 0 <= k < i ==> r@[k] == k + 1,
            decreases n - i,
        {
            r.push((i + 1) as u32);
            i += 1;
        }
        r
    }
}

/// A stream never owes more than its fixed total: the available balance is
/// non-negative and, together with what was already withdrawn, never exceeds
/// `total_amount` — however far past the duration the clock is.
pub proof fn lemma_available_bounds(s: SalaryStream, now: u64)
    requires
        stream_valid(s),
    ensures
        0 <= available_of(s, now),
        available_of(s, now) + s.withdrawn_amount <= s.total_amount,
{
    if s.is_active && !s.is_paused {
        vstd::arithmetic::div_mod::lemma_div_pos_is_pos(
            s.total_amount as int,
            s.duration_seconds as int,
        );
        vstd::arithmetic::mul::lemma_mul_nonnegative(
            s.rate_per_second as int,
            elapsed_at(s, now),
        );
    }
}

/// Once the full duration has elapsed on an active, unpaused stream whose
/// total divides evenly by its duration, the available balance and the
/// withdrawn amount add up to exactly the total. (With a truncating rate
/// that does not divide evenly, the accrual stops short of the total by the
/// remainder; that shortfall is a preserved design gap.)
pub proof fn lemma_available_at_completion(s: SalaryStream, now: u64)
    requires
        stream_valid(s),
        s.is_active,
        !s.is_paused,
        elapsed_at(s, now) >= s.duration_seconds,
        s.total_amount as int % s.duration_seconds as int == 0,
    ensures
        available_of(s, now) + s.withdrawn_amount == s.total_amount,
{
    let t = s.total_amount as int;
    let d = s.duration_seconds as int;
    let rate = t / d;
    vstd::arithmetic::div_mod::lemma_fundamental_div_mod(t, d);
    assert(rate * d == t) by {
        assert(t == d * (t / d) + (t % d));
        vstd::arithmetic::mul::lemma_mul_is_commutative(d, rate);
    }
    vstd::arithmetic::div_mod::lemma_div_pos_is_pos(t, d);
    vstd::arithmetic::mul::lemma_mul_inequality(d, elapsed_at(s, now), rate);
    assert(rate * elapsed_at(s, now) >= rate * d) by {
        vstd::arithmetic::mul::lemma_mul_is_commutative(rate, elapsed_at(s, now));
        vstd::arithmetic::mul::lemma_mul_is_commutative(rate, d);
    }
    assert(earned_at(s, now) == t);
}

/// Pausing gates the available balance to zero without touching the accrual
/// clock: the elapsed time is computed from the unmodified `start_time`, so
/// after a pause and resume the balance is exactly what it would have been
/// had the stream never been paused.
pub proof fn lemma_pause_blocks_withdrawal_only(s: SalaryStream, now: u64)
    ensures
        available_of((SalaryStream { is_paused: true, ..s }), now) == 0,
        available_of(
            (SalaryStream { is_paused: false, ..(SalaryStream { is_paused: true, ..s }) }),
            now,
        ) == available_of((SalaryStream { is_paused: false, ..s }), now),
{
}

} // verus!
