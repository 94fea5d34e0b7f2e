use vstd::prelude::*;

use crate::utils::{AppError, DirData, SubDirError, SummaryModel};

verus! {

/// What a walker learned about one directory entry: either the metadata
/// it read (kind and byte length), or the reason the metadata could not
/// be read.
pub enum EntryMeta {
    Readable { is_file: bool, is_symlink: bool, len: u64 },
    Unreadable { reason: String },
}

/// One event of a directory walk: either the listing itself failed at
/// some point (reported under the walked root's name), or an entry was
/// encountered.
pub enum WalkEvent {
    WalkError { name: String, reason: String },
    Entry { name: String, meta: EntryMeta },
}

/// The result of processing one entry: its byte length on success, or
/// the reason it failed. Skipped entries produce no outcome at all.
pub enum Outcome {
    Success { len: u64 },
    Failure { reason: String },
}

/// An outcome tagged with the entry's name, as sent to the aggregator.
pub struct Emission {
    pub name: String,
    pub outcome: Outcome,
}

/// An entry is eligible when it is a regular file and not a symbolic
/// link; directories and links of any target kind are skipped.
pub open spec fn eligible(m: EntryMeta) -> bool {
    match m {
        EntryMeta::Readable { is_file, is_symlink, len } => is_file && !is_symlink,
        EntryMeta::Unreadable { reason } => false,
    }
}

/// The byte length of an eligible entry.
pub open spec fn eligible_len(m: EntryMeta) -> int {
    match m {
        EntryMeta::Readable { is_file, is_symlink, len } => len as int,
        EntryMeta::Unreadable { reason } => 0,
    }
}

/// An event is skipped when it reached a readable entry that is not
/// eligible: a directory or a symbolic link.
pub open spec fn skipped(e: WalkEvent) -> bool {
    match e {
        WalkEvent::WalkError { name, reason } => false,
        WalkEvent::Entry { name, meta } => meta matches EntryMeta::Readable { .. } && !eligible(meta),
    }
}

/// Classify one entry from its metadata: the byte length of an eligible
/// plain file, or an error — the fixed skip reason for a directory or a
/// symbolic link, the metadata's own reason when it was unreadable.
pub fn scan_file(meta: &EntryMeta) -> (r: Result<u64, AppError>)
    ensures
        match *meta {
            EntryMeta::Readable { is_file, is_symlink, len } => {
                if is_file && !is_symlink {
                    r matches Ok(l) && l == len
                } else {
                    r matches Err(e) && e@ == "is subdirectory or symlink"@
                }
            },
            EntryMeta::Unreadable { reason } => r matches Err(e) && e@ == reason@,
        },
        r is Ok <==> eligible(*meta),
        r matches Ok(l) ==> l == eligible_len(*meta),
{
    match meta {
        EntryMeta::Readable { is_file, is_symlink, len } => {
            if *is_file && !*is_symlink {
                Ok(*len)
            } else {
                Err(SubDirError())
            }
        },
        EntryMeta::Unreadable { reason } => Err(AppError::new(reason.clone())),
    }
}

/// What one scan event sends to the aggregator: the entry's length on
/// an eligible file, the failure reason on a walk or metadata error,
/// nothing on a directory or symbolic link.
pub open spec fn scan_contrib(e: WalkEvent) -> Option<Emission> {
    match e {
        WalkEvent::WalkError { name, reason } => Some(
            Emission { name, outcome: Outcome::Failure { reason } },
        ),
        WalkEvent::Entry { name, meta } => match meta {
            EntryMeta::Readable { is_file, is_symlink, len } => {
                if is_file && !is_symlink {
                    Some(Emission { name, outcome: Outcome::Success { len } })
                } else {
                    None
                }
            },
            EntryMeta::Unreadable { reason } => Some(
                Emission { name, outcome: Outcome::Failure { reason } },
            ),
        },
    }
}

/// How one scan event moves a walker's private totals.
pub open spec fn scan_step_model(s: SummaryModel, e: WalkEvent) -> SummaryModel {
    match e {
        WalkEvent::WalkError { name, reason } => SummaryModel {
            size: s.size,
            completed: s.completed,
            error: s.error + 1,
        },
        WalkEvent::Entry { name, meta } => {
            if eligible(meta) {
                SummaryModel { size: s.size + eligible_len(meta), completed: s.completed + 1, error: s.error }
            } else if meta matches EntryMeta::Unreadable { .. } {
                SummaryModel { size: s.size, completed: s.completed, error: s.error + 1 }
            } else {
                s
            }
        },
    }
}

/// The emissions of a whole scan walk, in visit order.
pub open spec fn scan_emissions(events: Seq<WalkEvent>) -> Seq<Emission>
    decreases events.len(),
{
    if events.len() == 0 {
        Seq::empty()
    } else {
        scan_emissions(events.drop_last()) + match scan_contrib(events.last()) {
            Some(e) => seq![e],
            None => Seq::empty(),
        }
    }
}

/// The private totals of a whole scan walk.
pub open spec fn scan_summary(events: Seq<WalkEvent>) -> SummaryModel
    decreases events.len(),
{
    if events.len() == 0 {
        SummaryModel { size: 0, completed: 0, error: 0 }
    } else {
        scan_step_model(scan_summary(events.drop_last()), events.last())
    }
}

/// Process one scan event: move the walker's totals as
/// `scan_step_model` says and hand back exactly what `scan_contrib`
/// says is to be sent.
pub fn scan_step(data: &mut DirData, event: &WalkEvent) -> (emit: Option<Emission>)
    requires
        scan_step_model(old(data)@, *event).size <= u64::MAX,
        scan_step_model(old(data)@, *event).completed <= u64::MAX,
        scan_step_model(old(data)@, *event).error <= u64::MAX,
    ensures
        final(data)@ == scan_step_model(old(data)@, *event),
        emit == scan_contrib(*event),
{
    match event {
        WalkEvent::WalkError { name, reason } => {
            data.error = data.error + 1;
            Some(Emission { name: name.clone(), outcome: Outcome::Failure { reason: reason.clone() } })
        },
        WalkEvent::Entry { name, meta } => {
            match meta {
                EntryMeta::Readable { is_file, is_symlink, len } => {
                    if *is_file && !*is_symlink {
                        data.size = data.size + *len;
                        data.completed = data.completed + 1;
                        Some(Emission { name: name.clone(), outcome: Outcome::Success { len: *len } })
                    } else {
                        None
                    }
                },
                EntryMeta::Unreadable { reason } => {
                    data.error = data.error + 1;
                    Some(
                        Emission { name: name.clone(), outcome: Outcome::Failure { reason: reason.clone() } },
                    )
                },
            }
        },
    }
}

/// Appending one event appends its contribution and moves the summary
/// by one step.
pub proof fn lemma_scan_push(events: Seq<WalkEvent>, e: WalkEvent)
    ensures
        scan_emissions(events.push(e)) == scan_emissions(events) + (match scan_contrib(e) {
            Some(em) => seq![em],
            None => Seq::<Emission>::empty(),
        }),
        scan_summary(events.push(e)) == scan_step_model(scan_summary(events), e),
{
    assert(events.push(e).drop_last() =~= events);
    assert(events.push(e).last() == e);
}

/// One step never lowers any tally.
pub proof fn lemma_scan_step_model_ge(s: SummaryModel, e: WalkEvent)
    ensures
        scan_step_model(s, e).size >= s.size,
        scan_step_model(s, e).completed >= s.completed,
        scan_step_model(s, e).error >= s.error,
{
}

/// The tallies of a prefix of a walk never exceed those of the whole
/// walk.
pub proof fn lemma_scan_summary_prefix_le(events: Seq<WalkEvent>, j: int)
    requires
        0 <= j <= events.len(),
    ensures
        scan_summary(events.take(j)).size <= scan_summary(events).size,
        scan_summary(events.take(j)).completed <= scan_summary(events).completed,
        scan_summary(events.take(j)).error <= scan_summary(events).error,
    decreases events.len(),
{
    if j == events.len() {
        assert(events.take(j) =~= events);
    } else {
        assert(events.drop_last().take(j) =~= events.take(j));
        lemma_scan_summary_prefix_le(events.drop_last(), j);
        lemma_scan_step_model_ge(scan_summary(events.drop_last()), events.last());
    }
}

/// Run one whole scan walk over an already-classified event list:
/// returns the emissions in visit order and the walk's private totals.
pub fn scan_dir(events: &Vec<WalkEvent>) -> (r: (Vec<Emission>, DirData))
    requires
        scan_summary(events@).size <= u64::MAX,
        scan_summary(events@).completed <= u64::MAX,
        scan_summary(events@).error <= u64::MAX,
    ensures
        r.0@ == scan_emissions(events@),
        r.1@ == scan_summary(events@),
{
    let mut out: Vec<Emission> = Vec::new();
    let mut data = DirData::from(0, 0, 0);
    let mut i: usize = 0;
    while i < events.len()
        invariant
            0 <= i <= events.len(),
            data@ == scan_summary(events@.take(i as int)),
            out@ == scan_emissions(events@.take(i as int)),
            scan_summary(events@).size <= u64::MAX,
            scan_summary(events@).completed <= u64::MAX,
            scan_summary(events@).error <= u64::MAX,
        decreases events.len() - i,
    {
        proof {
            assert(events@.take(i + 1) =~= events@.take(i as int).push(events@[i as int]));
            lemma_scan_push(events@.take(i as int), events@[i as int]);
            lemma_scan_summary_prefix_le(events@, i + 1);
        }
        let emit = scan_step(&mut data, &events[i]);
        if let Some(em) = emit {
            out.push(em);
        }
        proof {
            assert(out@ =~= scan_emissions(events@.take(i + 1)));
        }
        i = i + 1;
    }
    proof {
        assert(events@.take(events@.len() as int) =~= events@);
    }
    (out, data)
}

/// Deletion is to be attempted on an event exactly when it reached an
/// eligible plain file.
pub open spec fn nuke_wants(e: WalkEvent) -> bool {
    match e {
        WalkEvent::WalkError { name, reason } => false,
        WalkEvent::Entry { name, meta } => eligible(meta),
    }
}

/// Decide whether the file this event reached is to be deleted: the
/// entry's byte length when it is an eligible plain file, nothing
/// otherwise. Directories and symbolic links are never deleted.
pub fn nuke_classify(event: &WalkEvent) -> (r: Option<u64>)
    ensures
        r is Some <==> nuke_wants(*event),
        match *event {
            WalkEvent::Entry { name, meta } => r matches Some(l) ==> l == eligible_len(meta),
            WalkEvent::WalkError { name, reason } => r is None,
        },
{
    match event {
        WalkEvent::Entry { name, meta } => {
            match scan_file(meta) {
                Ok(len) => Some(len),
                Err(_) => None,
            }
        },
        WalkEvent::WalkError { name, reason } => None,
    }
}

/// A deletion result belongs to an event exactly when the event asked
/// for a deletion.
pub open spec fn nuke_pair_wf(e: WalkEvent, del: Option<Result<(), String>>) -> bool {
    nuke_wants(e) <==> del is Some
}

/// What one nuke event sends to the aggregator: the length of a file
/// that was deleted, the failure reason when the walk, the metadata or
/// the deletion failed, nothing on a directory or symbolic link.
pub open spec fn nuke_contrib(e: WalkEvent, del: Option<Result<(), String>>) -> Option<Emission> {
    match e {
        WalkEvent::WalkError { name, reason } => Some(
            Emission { name, outcome: Outcome::Failure { reason } },
        ),
        WalkEvent::Entry { name, meta } => {
            if eligible(meta) {
                match del {
                    Some(Ok(u)) => Some(
                        Emission { name, outcome: Outcome::Success { len: (eligible_len(meta) as u64) } },
                    ),
                    Some(Err(r)) => Some(Emission { name, outcome: Outcome::Failure { reason: r } }),
                    None => None,
                }
            } else {
                match meta {
                    EntryMeta::Unreadable { reason } => Some(
                        Emission { name, outcome: Outcome::Failure { reason } },
                    ),
                    EntryMeta::Readable { is_file, is_symlink, len } => None,
                }
            }
        },
    }
}

/// How one nuke event moves a walker's private totals.
pub open spec fn nuke_step_model(
    s: SummaryModel,
    e: WalkEvent,
    del: Option<Result<(), String>>,
) -> SummaryModel {
    match nuke_contrib(e, del) {
        None => s,
        Some(em) => match em.outcome {
            Outcome::Success { len } => SummaryModel {
                size: s.size + len,
                completed: s.completed + 1,
                error: s.error,
            },
            Outcome::Failure { reason } => SummaryModel {
                size: s.size,
                completed: s.completed,
                error: s.error + 1,
            },
        },
    }
}

/// Record one nuke event and the deletion's result: move the walker's
/// totals as `nuke_step_model` says and hand back exactly what
/// `nuke_contrib` says is to be sent.
pub fn nuke_step(
    data: &mut DirData,
    event: &WalkEvent,
    deletion: &Option<Result<(), String>>,
) -> (emit: Option<Emission>)
    requires
        nuke_pair_wf(*event, *deletion),
        nuke_step_model(old(data)@, *event, *deletion).size <= u64::MAX,
        nuke_step_model(old(data)@, *event, *deletion).completed <= u64::MAX,
        nuke_step_model(old(data)@, *event, *deletion).error <= u64::MAX,
    ensures
        final(data)@ == nuke_step_model(old(data)@, *event, *deletion),
        emit == nuke_contrib(*event, *deletion),
{
    match event {
        WalkEvent::WalkError { name, reason } => {
            data.error = data.error + 1;
            Some(Emission { name: name.clone(), outcome: Outcome::Failure { reason: reason.clone() } })
        },
        WalkEvent::Entry { name, meta } => {
            match meta {
                EntryMeta::Readable { is_file, is_symlink, len } => {
                    if *is_file && !*is_symlink {
                        match deletion {
                            Some(Ok(_)) => {
                                data.size = data.size + *len;
                                data.completed = data.completed + 1;
                                Some(
                                    Emission { name: name.clone(), outcome: Outcome::Success { len: *len } },
                                )
                            },
                            Some(Err(r)) => {
                                data.error = data.error + 1;
                                Some(
                                    Emission {
                                        name: name.clone(),
                                        outcome: Outcome::Failure { reason: r.clone() },
                                    },
                                )
                            },
                            None => None,
                        }
                    } else {
                        None
                    }
                },
                EntryMeta::Unreadable { reason } => {
                    data.error = data.error + 1;
                    Some(
                        Emission { name: name.clone(), outcome: Outcome::Failure { reason: reason.clone() } },
                    )
                },
            }
        },
    }
}

/// The walk events of one nuke walk, each beside its deletion result.
pub open spec fn nuke_walk_wf(pairs: Seq<(WalkEvent, Option<Result<(), String>>)>) -> bool {
    forall|i: int| 0 <= i < pairs.len() ==> #[trigger] nuke_pair_wf(pairs[i].0, pairs[i].1)
}

/// The emissions of a whole nuke walk, in visit order.
pub open spec fn nuke_emissions(pairs: Seq<(WalkEvent, Option<Result<(), String>>)>) -> Seq<
    Emission,
>
    decreases pairs.len(),
{
    if pairs.len() == 0 {
        Seq::empty()
    } else {
        nuke_emissions(pairs.drop_last()) + match nuke_contrib(pairs.last().0, pairs.last().1) {
            Some(e) => seq![e],
            None => Seq::empty(),
        }
    }
}

/// The private totals of a whole nuke walk.
pub open spec fn nuke_summary(pairs: Seq<(WalkEvent, Option<Result<(), String>>)>) -> SummaryModel
    decreases pairs.len(),
{
    if pairs.len() == 0 {
        SummaryModel { size: 0, completed: 0, error: 0 }
    } else {
        nuke_step_model(nuke_summary(pairs.drop_last()), pairs.last().0, pairs.last().1)
    }
}

/// Appending one nuke event appends its contribution and moves the
/// summary by one step.
pub proof fn lemma_nuke_push(
    pairs: Seq<(WalkEvent, Option<Result<(), String>>)>,
    p: (WalkEvent, Option<Result<(), String>>),
)
    ensures
        nuke_emissions(pairs.push(p)) == nuke_emissions(pairs) + (match nuke_contrib(p.0, p.1) {
            Some(em) => seq![em],
            None => Seq::<Emission>::empty(),
        }),
        nuke_summary(pairs.push(p)) == nuke_step_model(nuke_summary(pairs), p.0, p.1),
{
    assert(pairs.push(p).drop_last() =~= pairs);
    assert(pairs.push(p).last() == p);
}

/// One nuke step never lowers any tally.
pub proof fn lemma_nuke_step_model_ge(s: SummaryModel, e: WalkEvent, del: Option<Result<(), String>>)
    ensures
        nuke_step_model(s, e, del).size >= s.size,
        nuke_step_model(s, e, del).completed >= s.completed,
        nuke_step_model(s, e, del).error >= s.error,
{
}

/// The tallies of a prefix of a nuke walk never exceed those of the
/// whole walk.
pub proof fn lemma_nuke_summary_prefix_le(
    pairs: Seq<(WalkEvent, Option<Result<(), String>>)>,
    j: int,
)
    requires
        0 <= j <= pairs.len(),
    ensures
        nuke_summary(pairs.take(j)).size <= nuke_summary(pairs).size,
        nuke_summary(pairs.take(j)).completed <= nuke_summary(pairs).completed,
        nuke_summary(pairs.take(j)).error <= nuke_summary(pairs).error,
    decreases pairs.len(),
{
    if j == pairs.len() {
        assert(pairs.take(j) =~= pairs);
    } else {
        assert(pairs.drop_last().take(j) =~= pairs.take(j));
        lemma_nuke_summary_prefix_le(pairs.drop_last(), j);
        lemma_nuke_step_model_ge(nuke_summary(pairs.drop_last()), pairs.last().0, pairs.last().1);
    }
}

/// Run one whole nuke walk over an already-classified event list, each
/// event beside the result its deletion gave: returns the emissions in
/// visit order and the walk's private totals.
pub fn nuke_dir(pairs: &Vec<(WalkEvent, Option<Result<(), String>>)>) -> (r: (
    Vec<Emission>,
    DirData,
))
    requires
        nuke_walk_wf(pairs@),
        nuke_summary(pairs@).size <= u64::MAX,
        nuke_summary(pairs@).completed <= u64::MAX,
        nuke_summary(pairs@).error <= u64::MAX,
    ensures
        r.0@ == nuke_emissions(pairs@),
        r.1@ == nuke_summary(pairs@),
{
    let mut out: Vec<Emission> = Vec::new();
    let mut data = DirData::from(0, 0, 0);
    let mut i: usize = 0;
    while i < pairs.len()
        invariant
            0 <= i <= pairs.len(),
            nuke_walk_wf(pairs@),
            data@ == nuke_summary(pairs@.take(i as int)),
            out@ == nuke_emissions(pairs@.take(i as int)),
            nuke_summary(pairs@).size <= u64::MAX,
            nuke_summary(pairs@).completed <= u64::MAX,
            nuke_summary(pairs@).error <= u64::MAX,
        decreases pairs.len() - i,
    {
        proof {
            assert(pairs@.take(i + 1) =~= pairs@.take(i as int).push(pairs@[i as int]));
            lemma_nuke_push(pairs@.take(i as int), pairs@[i as int]);
            lemma_nuke_summary_prefix_le(pairs@, i + 1);
            assert(nuke_pair_wf(pairs@[i as int].0, pairs@[i as int].1));
        }
        let emit = nuke_step(&mut data, &pairs[i].0, &pairs[i].1);
        if let Some(em) = emit {
            out.push(em);
        }
        proof {
            assert(out@ =~= nuke_emissions(pairs@.take(i + 1)));
        }
        i = i + 1;
    }
    proof {
        assert(pairs@.take(pairs@.len() as int) =~= pairs@);
    }
    (out, data)
}

} // verus!
