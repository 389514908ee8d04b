//! Turning the tape groups of a request into work units.

use crate::ident::{current_time, fresh_id, is_random_id};
use crate::model::{
    file_views, total_size, HpssFile, HpssFileView, TaccSyncFile, TaccSyncFileView,
    TaccSyncRequest, TaccSyncRequestView, TaccSyncWork, TaccSyncWorkView, Timestamp,
};
use crate::planner::PlanError;
use crate::tape_order::{
    group_contents, in_seek_order, is_tape_grouping, lemma_groups_in_order, seek_le,
};
use crate::text::{base_name, file_name_of, text_le};
use vstd::prelude::*;

verus! {

/// Whether the path of a file names a file.
pub open spec fn has_file_name(file: HpssFileView) -> bool {
    base_name(file.hpss_path) is Some
}

/// The work file for an archive file: the same path, size and position,
/// the final component of the path as its name, and no transfer task yet.
pub open spec fn work_file_of(file: HpssFileView) -> TaccSyncFileView {
    TaccSyncFileView {
        file_name: base_name(file.hpss_path)->0,
        hpss_path: file.hpss_path,
        size: file.size,
        tape_num: file.tape_num,
        tape_offset: file.tape_offset,
        globus_task_id: None,
    }
}

/// The work files for a group of archive files, in the order of the group.
pub open spec fn work_files_of(group: Seq<HpssFile>) -> Seq<TaccSyncFileView> {
    group.map_values(|f: HpssFile| work_file_of(f@))
}

/// The position of the first file of a group whose path names no file, or
/// the length of the group where every path names one.
pub open spec fn first_nameless(group: Seq<HpssFile>) -> int
    decreases group.len(),
{
    if group.len() == 0 {
        0
    } else if !has_file_name(group[0]@) {
        0
    } else {
        1 + first_nameless(group.drop_first())
    }
}

/// `first_nameless` is within bounds, points at a file without a name when
/// inside, and every file before it has a name.
pub proof fn lemma_first_nameless(group: Seq<HpssFile>)
    ensures
        0 <= first_nameless(group) <= group.len(),
        first_nameless(group) < group.len() ==> !has_file_name(group[first_nameless(group)]@),
        forall|k: int| 0 <= k < first_nameless(group) ==> has_file_name(#[trigger] group[k]@),
    decreases group.len(),
{
    if group.len() > 0 && has_file_name(group[0]@) {
        let rest = group.drop_first();
        lemma_first_nameless(rest);
        assert forall|k: int| 0 <= k < first_nameless(group) implies has_file_name(
            #[trigger] group[k]@,
        ) by {
            if k > 0 {
                assert(group[k] == rest[k - 1]);
            }
        }
    }
}

/// Why no work unit can be made of tape group number `g`, if anything
/// stands against it: the group is empty, or the sizes of its files do not
/// add up in 64 bits, or a path in it names no file. The first of these that
/// holds is the reason.
pub open spec fn group_error(group: Seq<HpssFile>, g: usize) -> Option<PlanError> {
    if group.len() == 0 {
        Some(PlanError::EmptyGroup { group: g })
    } else if total_size(work_files_of(group)) > u64::MAX {
        Some(PlanError::SizeOverflow { group: g })
    } else if first_nameless(group) < group.len() {
        Some(PlanError::MissingFileName { group: g, file: first_nameless(group) as usize })
    } else {
        None
    }
}

/// The work unit for a tape group: the request's identifier, the label of
/// the group's first file, the group's files and the sum of their sizes,
/// under the given identifier and creation time.
pub open spec fn planned_unit(
    request: TaccSyncRequestView,
    group: Seq<HpssFile>,
    work_id: u128,
    date_created: Timestamp,
) -> TaccSyncWorkView {
    TaccSyncWorkView {
        work_id,
        date_created,
        tape: group[0]@.tape,
        size: total_size(work_files_of(group)) as u64,
        request_id: request.request_id,
        files: work_files_of(group),
        transfer_id: None,
    }
}

/// The sum of sizes grows with the sequence.
pub proof fn lemma_total_size_grows(files: Seq<TaccSyncFileView>, n: int)
    requires
        0 <= n <= files.len(),
    ensures
        total_size(files.take(n)) <= total_size(files),
    decreases files.len(),
{
    if n < files.len() {
        lemma_total_size_grows(files.drop_last(), n);
        assert(files.drop_last().take(n) =~= files.take(n));
    } else {
        assert(files.take(n) =~= files);
    }
}

/// Makes the work unit of tape group number `group_index` under a given
/// identifier and creation time.
pub fn build_work_unit(
    request: &TaccSyncRequest,
    tape_group: &Vec<HpssFile>,
    group_index: usize,
    work_id: u128,
    date_created: Timestamp,
) -> (r: Result<TaccSyncWork, PlanError>)
    ensures
        match r {
            Ok(unit) => {
                &&& group_error(tape_group@, group_index) is None
                &&& unit@ == planned_unit(request@, tape_group@, work_id, date_created)
                &&& unit@.size_is_accounted()
            },
            Err(e) => group_error(tape_group@, group_index) == Some(e),
        },
{
    if tape_group.len() == 0 {
        return Err(PlanError::EmptyGroup { group: group_index });
    }
    let ghost planned = work_files_of(tape_group@);
    let mut size: u64 = 0;
    let mut i: usize = 0;
    assert(planned.take(0) =~= Seq::<TaccSyncFileView>::empty());
    while i < tape_group.len()
        invariant
            0 <= i <= tape_group@.len(),
            planned == work_files_of(tape_group@),
            size == total_size(planned.take(i as int)),
        decreases tape_group@.len() - i,
    {
        proof {
            assert(planned.take(i + 1).drop_last() =~= planned.take(i as int));
            assert(planned.take(i + 1).last().size == tape_group@[i as int].size);
        }
        match size.checked_add(tape_group[i].size) {
            Some(sum) => {
                size = sum;
            },
            None => {
                proof {
                    lemma_total_size_grows(planned, i + 1);
                }
                return Err(PlanError::SizeOverflow { group: group_index });
            },
        }
        i += 1;
    }
    assert(planned.take(tape_group@.len() as int) =~= planned);
    let mut files: Vec<TaccSyncFile> = Vec::new();
    let mut k: usize = 0;
    assert(file_views(files@) =~= planned.take(0));
    while k < tape_group.len()
        invariant
            0 <= k <= tape_group@.len(),
            tape_group@.len() > 0,
            planned == work_files_of(tape_group@),
            size == total_size(planned),
            forall|n: int| 0 <= n < k ==> has_file_name(#[trigger] tape_group@[n]@),
            file_views(files@) == planned.take(k as int),
        decreases tape_group@.len() - k,
    {
        let source = &tape_group[k];
        match file_name_of(source.hpss_path.as_str()) {
            Some(file_name) => {
                let file = TaccSyncFile {
                    file_name,
                    hpss_path: source.hpss_path.clone(),
                    size: source.size,
                    tape_num: source.tape_num,
                    tape_offset: source.tape_offset,
                    globus_task_id: None,
                };
                assert(file@ == work_file_of(tape_group@[k as int]@));
                assert(planned[k as int] == file@);
                assert(file_views(files@.push(file)) =~= file_views(files@).push(file@));
                assert(planned.take(k + 1) =~= planned.take(k as int).push(file@));
                files.push(file);
            },
            None => {
                proof {
                    lemma_first_nameless(tape_group@);
                    let first = first_nameless(tape_group@);
                    if first < k {
                        assert(has_file_name(tape_group@[first]@));
                    } else if first > k {
                        assert(has_file_name(tape_group@[k as int]@));
                    }
                }
                return Err(PlanError::MissingFileName { group: group_index, file: k });
            },
        }
        k += 1;
    }
    proof {
        assert(planned.take(tape_group@.len() as int) =~= planned);
        lemma_first_nameless(tape_group@);
        let first = first_nameless(tape_group@);
        if first < tape_group@.len() {
            assert(has_file_name(tape_group@[first]@));
        }
    }
    Ok(
        TaccSyncWork {
            work_id,
            date_created,
            tape: tape_group[0].tape.clone(),
            size,
            request_id: request.request_id,
            files,
            transfer_id: None,
        },
    )
}

/// Whether the first `n` tape groups can each be made into a work unit.
pub open spec fn groups_are_sound(groups: Seq<Seq<HpssFile>>, n: int) -> bool {
    forall|g: int| 0 <= g < n ==> group_error(#[trigger] groups[g], g as usize) is None
}

/// Whether `unit` is the work unit of `request` for `group`, under an
/// identifier marked as random and a creation time after 1970.
pub open spec fn is_unit_for(
    unit: TaccSyncWorkView,
    request: TaccSyncRequestView,
    group: Seq<HpssFile>,
) -> bool {
    &&& unit == planned_unit(request, group, unit.work_id, unit.date_created)
    &&& is_random_id(unit.work_id)
    &&& unit.date_created.secs >= 0
    &&& unit.date_created.nanos < 1_000_000_000
}

/// Makes one work unit for each tape group, in the order of the groups,
/// each under a fresh random identifier and the current time. The first
/// group of which no unit can be made is an error, and no unit is handed
/// out then.
pub fn generate_work_units(
    request: &TaccSyncRequest,
    tape_groups: &Vec<Vec<HpssFile>>,
) -> (r: Result<Vec<TaccSyncWork>, PlanError>)
    ensures
        match r {
            Ok(units) => {
                &&& groups_are_sound(group_contents(tape_groups@), tape_groups@.len() as int)
                &&& units@.len() == tape_groups@.len()
                &&& forall|g: int|
                    0 <= g < units@.len() ==> is_unit_for(
                        (#[trigger] units@[g])@,
                        request@,
                        tape_groups@[g]@,
                    ) && units@[g]@.size_is_accounted()
            },
            Err(e) => exists|bad: usize|
                {
                    &&& bad < tape_groups@.len()
                    &&& groups_are_sound(group_contents(tape_groups@), bad as int)
                    &&& group_error(tape_groups@[bad as int]@, bad) == Some(e)
                },
        },
{
    let mut units: Vec<TaccSyncWork> = Vec::new();
    let mut g: usize = 0;
    while g < tape_groups.len()
        invariant
            0 <= g <= tape_groups@.len(),
            units@.len() == g,
            groups_are_sound(group_contents(tape_groups@), g as int),
            forall|k: int|
                0 <= k < g ==> is_unit_for((#[trigger] units@[k])@, request@, tape_groups@[k]@)
                    && units@[k]@.size_is_accounted(),
        decreases tape_groups@.len() - g,
    {
        let work_id = fresh_id();
        let date_created = current_time();
        assert(group_contents(tape_groups@)[g as int] == tape_groups@[g as int]@);
        match build_work_unit(request, &tape_groups[g], g, work_id, date_created) {
            Ok(unit) => {
                units.push(unit);
            },
            Err(e) => {
                return Err(e);
            },
        }
        g += 1;
    }
    Ok(units)
}

/// Whether work file `a` lies no later on its tape than `b`: the order by
/// tape mark, offset and path.
pub open spec fn position_le(a: TaccSyncFileView, b: TaccSyncFileView) -> bool {
    if a.tape_num != b.tape_num {
        a.tape_num < b.tape_num
    } else if a.tape_offset != b.tape_offset {
        a.tape_offset < b.tape_offset
    } else {
        text_le(a.hpss_path, b.hpss_path)
    }
}

/// Tape partitioning: every file that went into the work unit of a tape
/// group lives on the tape that the unit names.
pub proof fn lemma_unit_has_one_tape(
    request: TaccSyncRequestView,
    files: Seq<HpssFile>,
    groups: Seq<Seq<HpssFile>>,
    g: int,
    work_id: u128,
    date_created: Timestamp,
)
    requires
        is_tape_grouping(files, groups),
        0 <= g < groups.len(),
    ensures
        forall|i: int|
            0 <= i < groups[g].len() ==> (#[trigger] groups[g][i])@.tape == planned_unit(
                request,
                groups[g],
                work_id,
                date_created,
            ).tape,
{
}

/// Tape-seek ordering: the files of the work unit of a tape group of sorted
/// files lie on the tape in the order of the unit, so that reading them in
/// that order never moves the tape back.
pub proof fn lemma_unit_in_tape_order(
    request: TaccSyncRequestView,
    files: Seq<HpssFile>,
    groups: Seq<Seq<HpssFile>>,
    g: int,
    work_id: u128,
    date_created: Timestamp,
)
    requires
        in_seek_order(files),
        is_tape_grouping(files, groups),
        0 <= g < groups.len(),
    ensures
        forall|i: int, j: int|
            0 <= i < j < groups[g].len() ==> position_le(
                #[trigger] planned_unit(request, groups[g], work_id, date_created).files[i],
                #[trigger] planned_unit(request, groups[g], work_id, date_created).files[j],
            ),
{
    lemma_groups_in_order(files, groups);
    let unit = planned_unit(request, groups[g], work_id, date_created);
    assert forall|i: int, j: int| 0 <= i < j < groups[g].len() implies position_le(
        #[trigger] unit.files[i],
        #[trigger] unit.files[j],
    ) by {
        assert(seek_le(groups[g][i]@, groups[g][j]@));
        assert(groups[g][i]@.tape == groups[g][0]@.tape);
        assert(groups[g][j]@.tape == groups[g][0]@.tape);
    }
}

/// Size accounting: the size of the work unit of a tape group is the sum of
/// the sizes of the unit's files, wherever a unit can be made of the group.
pub proof fn lemma_unit_size_accounted(
    request: TaccSyncRequestView,
    group: Seq<HpssFile>,
    g: usize,
    work_id: u128,
    date_created: Timestamp,
)
    requires
        group_error(group, g) is None,
    ensures
        planned_unit(request, group, work_id, date_created).size_is_accounted(),
{
}

} // verus!
