use vstd::prelude::*;

verus! {

/// Work-history profile for one employee principal, together with the risk
/// assessment derived from it. The `sector` is an opaque byte label.
#[derive(Clone, Debug)]
pub struct WorkProfile {
    pub employee: u64,
    pub years_experience: u32,
    /// Tenure in the current job, in months.
    pub current_job_duration: u32,
    pub job_changes: u32,
    pub sector: Vec<u8>,
    pub risk_score: u32,
    pub risk_tier: u32,
    pub updated_at: u64,
}

/// Points awarded for years of professional experience (at most 40).
pub open spec fn experience_points(years: u32) -> int {
    if years >= 8 {
        40
    } else if years >= 5 {
        30
    } else if years >= 3 {
        20
    } else if years >= 1 {
        10
    } else {
        0
    }
}

/// Points awarded for tenure in the current job, in months (at most 30).
pub open spec fn tenure_points(months: u32) -> int {
    if months >= 24 {
        30
    } else if months >= 12 {
        20
    } else if months >= 6 {
        10
    } else {
        0
    }
}

/// Points awarded for job stability (at most 30): few changes score high,
/// more than three changes score nothing.
pub open spec fn stability_points(changes: u32) -> int {
    if changes <= 1 {
        30
    } else if changes <= 2 {
        20
    } else if changes <= 3 {
        10
    } else {
        0
    }
}

/// The risk score of a work history: experience, tenure and stability points
/// added up. Always between 0 and 100.
pub open spec fn risk_score_of(years: u32, months: u32, changes: u32) -> int {
    experience_points(years) + tenure_points(months) + stability_points(changes)
}

/// The risk tier a score falls in: 1 (excellent) down to 5 (high risk).
pub open spec fn tier_of_score(score: u32) -> u32 {
    if score >= 80 {
        1
    } else if score >= 65 {
        2
    } else if score >= 50 {
        3
    } else if score >= 35 {
        4
    } else {
        5
    }
}

/// Whether some profile for `employee` is on record.
pub open spec fn has_profile_spec(profiles: Seq<WorkProfile>, employee: u64) -> bool {
    exists|i: int| 0 <= i < profiles.len() && profiles[i].employee == employee
}

/// Field-by-field agreement of two profile records; the sector label is
/// compared by its bytes.
pub open spec fn profile_eq(a: WorkProfile, b: WorkProfile) -> bool {
    &&& a.employee == b.employee
    &&& a.years_experience == b.years_experience
    &&& a.current_job_duration == b.current_job_duration
    &&& a.job_changes == b.job_changes
    &&& a.sector@ == b.sector@
    &&& a.risk_score == b.risk_score
    &&& a.risk_tier == b.risk_tier
    &&& a.updated_at == b.updated_at
}

/// Registry of work profiles, one per employee principal. Callers prove they
/// control the employee principal through the host's authorization primitive
/// before a profile is written.
pub struct WorkProfileContract {
    pub profiles: Vec<WorkProfile>,
}

impl WorkProfileContract {
    /// Internal consistency: one profile per employee, and the stored score
    /// and tier are the ones derived from the stored work history.
    pub open spec fn wf(self) -> bool {
        &&& forall|i: int, j: int|
            0 <= i < j < self.profiles@.len() ==> self.profiles@[i].employee
                != self.profiles@[j].employee
        &&& forall|i: int|
            0 <= i < self.profiles@.len() ==> {
                let p = #[trigger] self.profiles@[i];
                p.risk_score == risk_score_of(
                    p.years_experience,
                    p.current_job_duration,
                    p.job_changes,
                ) && p.risk_tier == tier_of_score(p.risk_score)
            }
    }

    /// An empty registry.
    pub fn new() -> (s: Self)
        ensures
            s.wf(),
            s.profiles@.len() == 0,
    {
        WorkProfileContract { profiles: Vec::new() }
    }

    /// Calculates the risk score of a work history: up to 40 points for
    /// experience, 30 for tenure and 30 for stability.
    pub fn calculate_risk_score(
        years_experience: u32,
        current_job_duration: u32,
        job_changes: u32,
    ) -> (score: u32)
        ensures
            score == risk_score_of(years_experience, current_job_duration, job_changes),
            score <= 100,
    {
        let mut score: u32 = 0;

        // Years of experience (0-40 points)
        if years_experience >= 8 {
            score = score + 40;
        } else if years_experience >= 5 {
            score = score + 30;
        } else if years_experience >= 3 {
            score = score + 20;
        } else if years_experience >= 1 {
            score = score + 10;
        }

        // Current job duration (0-30 points)
        if current_job_duration >= 24 {
            score = score + 30;
        } else if current_job_duration >= 12 {
            score = score + 20;
        } else if current_job_duration >= 6 {
            score = score + 10;
        }

        // Job stability (0-30 points)
        if job_changes <= 1 {
            score = score + 30;
        } else if job_changes <= 2 {
            score = score + 20;
        } else if job_changes <= 3 {
            score = score + 10;
        }

        score
    }

    /// Maps a risk score to its tier.
    pub fn get_risk_tier(risk_score: u32) -> (tier: u32)
        ensures
            tier == tier_of_score(risk_score),
            1 <= tier <= 5,
    {
        if risk_score >= 80 {
            1
        } else if risk_score >= 65 {
            2
        } else if risk_score >= 50 {
            3
        } else if risk_score >= 35 {
            4
        } else {
            5
        }
    }

    /// Writes (or overwrites) the profile of `employee`, deriving its risk
    /// score and tier from the given work history. The caller must have
    /// authorized as `employee`; `now` is the host clock's timestamp.
    pub fn update_profile(
        &mut self,
        employee: u64,
        years_experience: u32,
        current_job_duration: u32,
        job_changes: u32,
        sector: Vec<u8>,
        now: u64,
    )
        requires
            old(self).wf(),
        ensures
            final(self).wf(),
            ({
                let entry = WorkProfile {
                    employee,
                    years_experience,
                    current_job_duration,
                    job_changes,
                    sector,
                    risk_score: risk_score_of(
                        years_experience,
                        current_job_duration,
                        job_changes,
                    ) as u32,
                    risk_tier: tier_of_score(
                        risk_score_of(years_experience, current_job_duration, job_changes) as u32,
                    ),
                    updated_at: now,
                };
                if has_profile_spec(old(self).profiles@, employee) {
                    exists|i: int|
                        0 <= i < old(self).profiles@.len() && old(self).profiles@[i].employee
                            == employee && final(self).profiles@ == old(self).profiles@.update(
                            i,
                            entry,
                        )
                } else {
                    final(self).profiles@ == old(self).profiles@.push(entry)
                }
            }),
    {
        let risk_score = Self::calculate_risk_score(
            years_experience,
            current_job_duration,
            job_changes,
        );
        let risk_tier = Self::get_risk_tier(risk_score);
        let profile = WorkProfile {
            employee,
            years_experience,
            current_job_duration,
            job_changes,
            sector,
            risk_score,
            risk_tier,
            updated_at: now,
        };

        let n = self.profiles.len();
        let mut i: usize = 0;
        #[verifier::loop_isolation(false)]
        while i < n
            invariant
                i <= n,
                *self == *old(self),
                forall|j: int| 0 <= j < i ==> self.profiles@[j].employee != employee,
            decreases n - i,
        {
            if self.profiles[i].employee == employee {
                self.profiles[i] = profile;
                proof {
                    let os = old(self).profiles@;
                    assert(os[i as int].employee == employee);
                    assert(has_profile_spec(os, employee));
                    assert(self.profiles@ =~= os.update(i as int, profile));
                    assert(forall|k: int|
                        0 <= k < os.len() && k != i ==> self.profiles@[k] == os[k]);
                    assert(profile.risk_score == risk_score_of(
                        years_experience,
                        current_job_duration,
                        job_changes,
                    ) as u32);
                    assert(profile.risk_tier == tier_of_score(profile.risk_score));
                    assert(self.wf());
                }
                return ;
            }
            i += 1;
        }
        self.profiles.push(profile);
    }

    /// Returns a copy of the profile of `employee`, or `None` if none is on
    /// record.
    pub fn get_profile(&self, employee: u64) -> (r: Option<WorkProfile>)
        ensures
            r is Some <==> has_profile_spec(self.profiles@, employee),
            r matches Some(p) ==> exists|i: int|
                0 <= i < self.profiles@.len() && self.profiles@[i].employee == employee
                    && profile_eq(p, #[trigger] self.profiles@[i]),
    {
        let n = self.profiles.len();
        let mut i: usize = 0;
        #[verifier::loop_isolation(false)]
        while i < n
            invariant
                i <= n,
                forall|j: int| 0 <= j < i ==> self.profiles@[j].employee != employee,
            decreases n - i,
        {
            if self.profiles[i].employee == employee {
                let p = &self.profiles[i];
                let copy = WorkProfile {
                    employee: p.employee,
                    years_experience: p.years_experience,
                    current_job_duration: p.current_job_duration,
                    job_changes: p.job_changes,
                    sector: crate::store::copy_list(&p.sector),
                    risk_score: p.risk_score,
                    risk_tier: p.risk_tier,
                    updated_at: p.updated_at,
                };
                return Some(copy);
            }
            i += 1;
        }
        None
    }

    /// The risk tier of `employee`'s profile, or 5 (highest risk) if no
    /// profile is on record.
    pub fn get_employee_risk_tier(&self, employee: u64) -> (tier: u32)
        requires
            self.wf(),
        ensures
            1 <= tier <= 5,
            has_profile_spec(self.profiles@, employee) ==> exists|i: int|
                0 <= i < self.profiles@.len() && #[trigger] self.profiles@[i].employee == employee
                    && tier == self.profiles@[i].risk_tier,
            !has_profile_spec(self.profiles@, employee) ==> tier == 5,
    {
        match self.get_profile(employee) {
            Some(profile) => profile.risk_tier,
            None => 5,
        }
    }

    /// Whether `employee` has a profile on record.
    pub fn has_profile(&self, employee: u64) -> (r: bool)
        ensures
            r == has_profile_spec(self.profiles@, employee),
    {
        let n = self.profiles.len();
        let mut i: usize = 0;
        #[verifier::loop_isolation(false)]
        while i < n
            invariant
                i <= n,
                forall|j: int| 0 <= j < i ==> self.profiles@[j].employee != employee,
            decreases n - i,
        {
            if self.profiles[i].employee == employee {
                return true;
            }
            i += 1;
        }
        false
    }
}

} // verus!
