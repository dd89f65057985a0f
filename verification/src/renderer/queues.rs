//! Queue-family bookkeeping for device selection.

use vstd::prelude::*;

verus! {

/// The roles a device queue can be created for.
#[derive(Copy, Clone, Debug, PartialEq, Eq, Structural)]
pub enum QueueFamilyTypes {
    General,
    Compute,
    Graphics,
    Present,
}

/// What a device reports of one of its queue families, and whether the
/// surface can be presented to from it.
#[derive(Copy, Clone, Debug, PartialEq, Eq, Structural)]
pub struct QueueFamily {
    pub id: u32,
    pub supports_compute: bool,
    pub supports_graphics: bool,
    pub supports_present: bool,
}

impl QueueFamily {
    /// The one role that a family is taken for: general where it can compute,
    /// draw and present; else compute where it can compute; else graphics
    /// where it can draw and present; else present where it can present.
    pub open spec fn role(self) -> Option<QueueFamilyTypes> {
        if self.supports_compute && self.supports_graphics && self.supports_present {
            Some(QueueFamilyTypes::General)
        } else if self.supports_compute {
            Some(QueueFamilyTypes::Compute)
        } else if self.supports_graphics && self.supports_present {
            Some(QueueFamilyTypes::Graphics)
        } else if self.supports_present {
            Some(QueueFamilyTypes::Present)
        } else {
            None
        }
    }
}

/// The id of the last family of `families` that is taken for `role`.
pub open spec fn last_with_role(families: Seq<QueueFamily>, role: QueueFamilyTypes) -> Option<u32>
    decreases families.len(),
{
    if families.len() == 0 {
        None
    } else if families.last().role() == Some(role) {
        Some(families.last().id)
    } else {
        last_with_role(families.drop_last(), role)
    }
}

/// For each role, the id of the queue family chosen to serve it, if any.
#[derive(Debug, Clone, Copy)]
pub struct QueueFamilyIds {
    pub general: Option<u32>,
    pub compute: Option<u32>,
    pub graphics: Option<u32>,
    pub present: Option<u32>,
}

impl QueueFamilyIds {
    /// No family chosen for any role.
    pub fn none() -> (ids: Self)
        ensures
            ids.general.is_none(),
            ids.compute.is_none(),
            ids.graphics.is_none(),
            ids.present.is_none(),
    {
        Self { general: None, compute: None, graphics: None, present: None }
    }

    /// Sorts the families of a device into roles. Where several families
    /// qualify for a role, the last of them serves it.
    pub fn from_queue_families_iter(families: &Vec<QueueFamily>) -> (ids: Self)
        ensures
            ids.general == last_with_role(families@, QueueFamilyTypes::General),
            ids.compute == last_with_role(families@, QueueFamilyTypes::Compute),
            ids.graphics == last_with_role(families@, QueueFamilyTypes::Graphics),
            ids.present == last_with_role(families@, QueueFamilyTypes::Present),
    {
        let mut ids = Self::none();
        let mut at: usize = 0;
        assert(families@.subrange(0, 0) =~= Seq::<QueueFamily>::empty());
        // We assume all queue families support transfers
        while at < families.len()
            invariant
                at <= families.len(),
                ids.general == last_with_role(
                    families@.subrange(0, at as int),
                    QueueFamilyTypes::General,
                ),
                ids.compute == last_with_role(
                    families@.subrange(0, at as int),
                    QueueFamilyTypes::Compute,
                ),
                ids.graphics == last_with_role(
                    families@.subrange(0, at as int),
                    QueueFamilyTypes::Graphics,
                ),
                ids.present == last_with_role(
                    families@.subrange(0, at as int),
                    QueueFamilyTypes::Present,
                ),
            decreases families.len() - at,
        {
            let qf = families[at];
            proof {
                let longer = families@.subrange(0, at + 1);
                assert(longer.drop_last() =~= families@.subrange(0, at as int));
                assert(longer.last() == qf);
            }
            if qf.supports_compute && qf.supports_graphics && qf.supports_present {
                ids.general = Some(qf.id);
            } else if qf.supports_compute {
                ids.compute = Some(qf.id);
            } else if qf.supports_graphics && qf.supports_present {
                ids.graphics = Some(qf.id);
            } else if qf.supports_present {
                ids.present = Some(qf.id);
            }
            at += 1;
        }
        assert(families@.subrange(0, at as int) =~= families@);
        ids
    }
}

/// The queues to ask a device for, each with the family it comes from and
/// the role it is meant for.
///
/// Where a general family exists it gives up to four queues, as many as it
/// has, and no graphics or compute queue is asked for beside them; where none
/// exists, the graphics family and the compute family give one queue each, in
/// that order. The present family gives one more queue in either case.
pub open spec fn planned_queues(ids: QueueFamilyIds, general_queues: nat) -> Seq<
    (u32, QueueFamilyTypes),
> {
    let front = match ids.general {
        Some(id) => Seq::new(
            if general_queues < 4 {
                general_queues
            } else {
                4
            },
            |i: int| (id, QueueFamilyTypes::General),
        ),
        None => {
            let graphics = match ids.graphics {
                Some(id) => seq![(id, QueueFamilyTypes::Graphics)],
                None => Seq::empty(),
            };
            match ids.compute {
                Some(id) => graphics.push((id, QueueFamilyTypes::Compute)),
                None => graphics,
            }
        },
    };
    match ids.present {
        Some(id) => front.push((id, QueueFamilyTypes::Present)),
        None => front,
    }
}

/// Lists the queues to create: see [`planned_queues`]. `general_queues` is
/// the number of queues that the general family has.
pub fn plan_queues(ids: &QueueFamilyIds, general_queues: usize) -> (queues: Vec<
    (u32, QueueFamilyTypes),
>)
    ensures
        queues@ == planned_queues(*ids, general_queues as nat),
{
    let mut queues: Vec<(u32, QueueFamilyTypes)> = Vec::new();
    match ids.general {
        Some(id) => {
            let wanted: usize = if general_queues < 4 {
                general_queues
            } else {
                4
            };
            let mut made: usize = 0;
            while made < wanted
                invariant
                    made <= wanted,
                    queues@ =~= Seq::new(made as nat, |i: int| (id, QueueFamilyTypes::General)),
                decreases wanted - made,
            {
                queues.push((id, QueueFamilyTypes::General));
                made += 1;
            }
        },
        None => {
            match ids.graphics {
                Some(id) => {
                    queues.push((id, QueueFamilyTypes::Graphics));
                },
                None => {},
            }
            match ids.compute {
                Some(id) => {
                    queues.push((id, QueueFamilyTypes::Compute));
                },
                None => {},
            }
        },
    }
    match ids.present {
        Some(id) => {
            queues.push((id, QueueFamilyTypes::Present));
        },
        None => {},
    }
    assert(queues@ =~= planned_queues(*ids, general_queues as nat));
    queues
}

/// Which of the created queues serves which role, by position in the list
/// they were created from.
#[derive(Copy, Clone, Debug, PartialEq, Eq, Structural)]
pub struct QueueSlots {
    pub general: usize,
    pub compute: usize,
    pub graphics: usize,
    pub present: usize,
}

/// Whether the queue at `position` was created for `role` or as a general
/// queue.
pub open spec fn serves(
    kinds: Seq<QueueFamilyTypes>,
    position: int,
    role: QueueFamilyTypes,
) -> bool {
    position < kinds.len() && (kinds[position] == role || kinds[position]
        == QueueFamilyTypes::General)
}

/// Hands the created queues their roles: the first queue is the general one;
/// the second, third and fourth serve compute, graphics and presentation
/// where they were created for that role or as general queues, and the first
/// queue stands in where they were not. There is nothing to hand out where no
/// queue was created.
pub fn assign_queues(kinds: &Vec<QueueFamilyTypes>) -> (slots: Option<QueueSlots>)
    ensures
        kinds@.len() == 0 ==> slots.is_none(),
        kinds@.len() > 0 ==> slots == Some(
            QueueSlots {
                general: 0,
                compute: if serves(kinds@, 1, QueueFamilyTypes::Compute) {
                    1
                } else {
                    0
                },
                graphics: if serves(kinds@, 2, QueueFamilyTypes::Graphics) {
                    2
                } else {
                    0
                },
                present: if serves(kinds@, 3, QueueFamilyTypes::Present) {
                    3
                } else {
                    0
                },
            },
        ),
{
    if kinds.len() == 0 {
        return None;
    }
    let compute: usize = if kinds.len() > 1 && (kinds[1] == QueueFamilyTypes::Compute || kinds[1]
        == QueueFamilyTypes::General) {
        1
    } else {
        0
    };
    let graphics: usize = if kinds.len() > 2 && (kinds[2] == QueueFamilyTypes::Graphics || kinds[2]
        == QueueFamilyTypes::General) {
        2
    } else {
        0
    };
    let present: usize = if kinds.len() > 3 && (kinds[3] == QueueFamilyTypes::Present || kinds[3]
        == QueueFamilyTypes::General) {
        3
    } else {
        0
    };
    Some(QueueSlots { general: 0, compute, graphics, present })
}

} // verus!
