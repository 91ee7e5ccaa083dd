use vstd::prelude::*;

use crate::chunk::ProbeError;

verus! {

/// The chunk columns within `radius` of (center_x, center_z), both ways.
pub open spec fn in_window(center_x: int, center_z: int, radius: int, pos: (i32, i32)) -> bool {
    center_x - radius <= pos.0 <= center_x + radius && center_z - radius <= pos.1 <= center_z + radius
}

/// Whether `a` and `b` list the same columns.
pub open spec fn same_columns(a: Seq<(i32, i32)>, b: Seq<(i32, i32)>) -> bool {
    forall|p: (i32, i32)| a.contains(p) <==> b.contains(p)
}

fn contains_pos(v: &Vec<(i32, i32)>, pos: (i32, i32)) -> (r: bool)
    ensures
        r == v@.contains(pos),
{
    let n = v.len();
    let mut i: usize = 0;
    while i < n
        invariant
            n == v@.len(),
            i <= n,
            forall|j: int| 0 <= j < i ==> v@[j] != pos,
        decreases n - i,
    {
        if v[i].0 == pos.0 && v[i].1 == pos.1 {
            assert(v@[i as int] == pos);
            return true;
        }
        i += 1;
    }
    false
}

/// Every column of `a` is listed in `b`.
fn all_listed(a: &Vec<(i32, i32)>, b: &Vec<(i32, i32)>) -> (r: bool)
    ensures
        r == forall|j: int| 0 <= j < a@.len() ==> b@.contains(#[trigger] a@[j]),
{
    let n = a.len();
    let mut i: usize = 0;
    while i < n
        invariant
            n == a@.len(),
            i <= n,
            forall|j: int| 0 <= j < i ==> b@.contains(#[trigger] a@[j]),
        decreases n - i,
    {
        if !contains_pos(b, a[i]) {
            return false;
        }
        i += 1;
    }
    true
}

/// Whether two lists of columns hold the same columns.
pub fn same_column_set(a: &Vec<(i32, i32)>, b: &Vec<(i32, i32)>) -> (r: bool)
    ensures
        r == same_columns(a@, b@),
{
    let ab = all_listed(a, b);
    let ba = all_listed(b, a);
    proof {
        if ab && ba {
            assert forall|p: (i32, i32)| a@.contains(p) <==> b@.contains(p) by {
                if a@.contains(p) {
                    let j = choose|j: int| 0 <= j < a@.len() && a@[j] == p;
                    assert(b@.contains(a@[j]));
                }
                if b@.contains(p) {
                    let j = choose|j: int| 0 <= j < b@.len() && b@[j] == p;
                    assert(a@.contains(b@[j]));
                }
            }
        }
        if !ab {
            let j = choose|j: int| 0 <= j < a@.len() && !b@.contains(#[trigger] a@[j]);
            assert(a@.contains(a@[j]));
        }
        if !ba {
            let j = choose|j: int| 0 <= j < b@.len() && !a@.contains(#[trigger] b@[j]);
            assert(b@.contains(b@[j]));
        }
    }
    ab && ba
}

/// The columns of the square of the given radius around a center column, row by row.
pub fn window(center_x: i32, center_z: i32, radius: i32) -> (r: Vec<(i32, i32)>)
    requires
        i32::MIN <= center_x - radius <= i32::MAX,
        i32::MIN <= center_x + radius <= i32::MAX,
        i32::MIN <= center_z - radius <= i32::MAX,
        i32::MIN <= center_z + radius <= i32::MAX,
    ensures
        forall|p: (i32, i32)| r@.contains(p) <==> in_window(center_x as int, center_z as int, radius as int, p),
        r@.no_duplicates(),
        r@.len() == if radius >= 0 { (2 * radius + 1) * (2 * radius + 1) } else { 0 },
{
    let mut chunks: Vec<(i32, i32)> = Vec::new();
    let ghost width: int = if radius >= 0 { 2 * radius + 1 } else { 0 };
    let z_min: i64 = center_z as i64 - radius as i64;
    let z_max: i64 = center_z as i64 + radius as i64;
    let x_min: i64 = center_x as i64 - radius as i64;
    let x_max: i64 = center_x as i64 + radius as i64;
    let mut z: i64 = z_min;
    while z <= z_max
        invariant
            z_min == center_z - radius,
            z_max == center_z + radius,
            x_min == center_x - radius,
            x_max == center_x + radius,
            i32::MIN <= x_min && x_max <= i32::MAX,
            i32::MIN <= z_min && z_max <= i32::MAX,
            width == if radius >= 0 { 2 * radius + 1 } else { 0 },
            z_min <= z,
            z <= z_max ==> chunks@.len() == (z - z_min) * width,
            z > z_max ==> z == z_min || z == z_max + 1,
            z > z_max && z == z_max + 1 ==> chunks@.len() == (z - z_min) * width,
            z > z_max && z == z_min ==> chunks@.len() == 0,
            chunks@.no_duplicates(),
            forall|p: (i32, i32)| chunks@.contains(p) <==> (in_window(center_x as int, center_z as int, radius as int, p) && p.1 < z),
        decreases z_max + 1 - z,
    {
        let mut x: i64 = x_min;
        let ghost row_start = chunks@.len();
        while x <= x_max
            invariant
                z_min == center_z - radius,
                z_max == center_z + radius,
                x_min == center_x - radius,
                x_max == center_x + radius,
                i32::MIN <= x_min && x_max <= i32::MAX,
                i32::MIN <= z_min && z_max <= i32::MAX,
                z_min <= z <= z_max,
                x_min <= x <= x_max + 1,
                chunks@.len() == row_start + (x - x_min),
                chunks@.no_duplicates(),
                forall|p: (i32, i32)| chunks@.contains(p) <==> (in_window(center_x as int, center_z as int, radius as int, p) && (p.1 < z || (p.1 == z && p.0 < x))),
            decreases x_max + 1 - x,
        {
            let ghost before = chunks@;
            let cell: (i32, i32) = (x as i32, z as i32);
            chunks.push(cell);
            proof {
                assert forall|p: (i32, i32)| chunks@.contains(p) <==> (before.contains(p) || p == cell) by {
                    if chunks@.contains(p) {
                        let j = choose|j: int| 0 <= j < chunks@.len() && chunks@[j] == p;
                        if j < before.len() {
                            assert(before[j] == p);
                        }
                    }
                    if before.contains(p) {
                        let j = choose|j: int| 0 <= j < before.len() && before[j] == p;
                        assert(chunks@[j] == p);
                    }
                    if p == cell {
                        assert(chunks@[before.len() as int] == p);
                    }
                }
                assert(!before.contains(cell));
                assert forall|i: int, j: int| 0 <= i < j < chunks@.len() implies chunks@[i] != chunks@[j] by {
                    if j == before.len() {
                        assert(before.contains(chunks@[i]));
                    }
                }
                assert forall|p: (i32, i32)| chunks@.contains(p) <==> (in_window(center_x as int, center_z as int, radius as int, p) && (p.1 < z || (p.1 == z && p.0 < x + 1))) by {
                    assert(chunks@.contains(p) <==> (before.contains(p) || p == cell));
                }
            }
            x += 1;
        }
        proof {
            assert(radius >= 0);
            assert(chunks@.len() == (z - z_min) * width + width);
            assert((z - z_min) * width + width == (z + 1 - z_min) * width) by (nonlinear_arith);
        }
        z += 1;
    }
    proof {
        if radius >= 0 {
            assert(z == z_max + 1);
            assert(z - z_min == 2 * radius + 1);
        }
    }
    chunks
}

/// Refuses a batch that holds a column outside the expected window.
pub fn reject_stale_chunks(batch: &Vec<(i32, i32)>, expected: &Vec<(i32, i32)>) -> (r: Result<(), ProbeError>)
    ensures
        r is Ok == forall|j: int| 0 <= j < batch@.len() ==> expected@.contains(#[trigger] batch@[j]),
        r matches Err(e) ==> e == ProbeError::Phase("moving pending stale chunk"),
{
    if all_listed(batch, expected) {
        Ok(())
    } else {
        Err(ProbeError::Phase("moving pending stale chunk"))
    }
}

/// Whether no column of `batch` was seen before.
pub open spec fn all_new(seen: Seq<(i32, i32)>, batch: Seq<(i32, i32)>) -> bool {
    forall|j: int| 0 <= j < batch.len() ==> !seen.contains(#[trigger] batch[j])
}

fn none_listed(batch: &Vec<(i32, i32)>, seen: &Vec<(i32, i32)>) -> (r: bool)
    ensures
        r == all_new(seen@, batch@),
{
    let n = batch.len();
    let mut i: usize = 0;
    while i < n
        invariant
            n == batch@.len(),
            i <= n,
            forall|j: int| 0 <= j < i ==> !seen@.contains(#[trigger] batch@[j]),
        decreases n - i,
    {
        if contains_pos(seen, batch[i]) {
            return false;
        }
        i += 1;
    }
    true
}

/// Refuses a batch that repeats a column already streamed (a moving player's window).
pub fn reject_duplicate_chunks(seen: &Vec<(i32, i32)>, batch: &Vec<(i32, i32)>) -> (r: Result<(), ProbeError>)
    ensures
        r is Ok == all_new(seen@, batch@),
        r matches Err(e) ==> e == ProbeError::Phase("moving pending duplicate"),
{
    if none_listed(batch, seen) {
        Ok(())
    } else {
        Err(ProbeError::Phase("moving pending duplicate"))
    }
}

/// Refuses a batch that repeats a column already streamed (load metrics).
pub fn reject_duplicate_load_chunks(seen: &Vec<(i32, i32)>, batch: &Vec<(i32, i32)>) -> (r: Result<(), ProbeError>)
    ensures
        r is Ok == all_new(seen@, batch@),
        r matches Err(e) ==> e == ProbeError::Phase("scale load duplicate chunk"),
{
    if none_listed(batch, seen) {
        Ok(())
    } else {
        Err(ProbeError::Phase("scale load duplicate chunk"))
    }
}

/// Whether every column of `batch` is among the expected ones.
pub open spec fn all_expected(batch: Seq<(i32, i32)>, expected: Seq<(i32, i32)>) -> bool {
    forall|j: int| 0 <= j < batch.len() ==> expected.contains(#[trigger] batch[j])
}

/// Adds the columns of `batch` that are not yet listed to `seen`, as a set takes them.
fn take_columns(seen: &mut Vec<(i32, i32)>, batch: Vec<(i32, i32)>)
    ensures
        forall|p: (i32, i32)| #[trigger] final(seen)@.contains(p) <==> (old(seen)@.contains(p) || batch@.contains(p)),
        old(seen)@.no_duplicates() ==> final(seen)@.no_duplicates(),
{
    let ghost before = seen@;
    let n = batch.len();
    let mut i: usize = 0;
    while i < n
        invariant
            n == batch@.len(),
            i <= n,
            forall|p: (i32, i32)| #[trigger] seen@.contains(p) <==> (before.contains(p) || exists|j: int| 0 <= j < i && batch@[j] == p),
            before.no_duplicates() ==> seen@.no_duplicates(),
        decreases n - i,
    {
        let pos = batch[i];
        if !contains_pos(seen, pos) {
            proof {
                assert forall|p: (i32, i32)| #[trigger] seen@.push(pos).contains(p) <==> (before.contains(p) || exists|j: int| 0 <= j < i + 1 && batch@[j] == p) by {
                    if seen@.push(pos).contains(p) {
                        if p != pos {
                            let k = choose|k: int| 0 <= k < seen@.push(pos).len() && seen@.push(pos)[k] == p;
                            assert(seen@[k] == p);
                            assert(seen@.contains(p));
                            if !before.contains(p) {
                                let j = choose|j: int| 0 <= j < i && batch@[j] == p;
                                assert(0 <= j < i + 1 && batch@[j] == p);
                            }
                        } else {
                            assert(batch@[i as int] == p);
                        }
                    }
                    if exists|j: int| 0 <= j < i + 1 && batch@[j] == p {
                        if p != pos {
                            let j = choose|j: int| 0 <= j < i + 1 && batch@[j] == p;
                            assert(j < i);
                            assert(seen@.contains(p));
                            let k = choose|k: int| 0 <= k < seen@.len() && seen@[k] == p;
                            assert(seen@.push(pos)[k] == p);
                        } else {
                            assert(seen@.push(pos)[seen@.len() as int] == p);
                        }
                    }
                    if before.contains(p) {
                        assert(seen@.contains(p));
                        let k = choose|k: int| 0 <= k < seen@.len() && seen@[k] == p;
                        assert(seen@.push(pos)[k] == p);
                    }
                }
            }
            seen.push(pos);
        } else {
            proof {
                assert forall|p: (i32, i32)| #[trigger] seen@.contains(p) <==> (before.contains(p) || exists|j: int| 0 <= j < i + 1 && batch@[j] == p) by {
                    if exists|j: int| 0 <= j < i + 1 && batch@[j] == p {
                        if p != pos {
                            let j = choose|j: int| 0 <= j < i + 1 && batch@[j] == p;
                            assert(j < i);
                        }
                    }
                }
            }
        }
        i += 1;
    }
    proof {
        assert forall|p: (i32, i32)| #[trigger] seen@.contains(p) <==> (before.contains(p) || batch@.contains(p)) by {
            if batch@.contains(p) {
                let j = choose|j: int| 0 <= j < batch@.len() && batch@[j] == p;
                assert(exists|j: int| 0 <= j < n && batch@[j] == p);
            }
        }
    }
}

/// Takes a streamed batch into the seen columns, as a set takes them, after checking that it
/// only holds expected columns (else the stale-chunk error) and none seen before (else the
/// duplicate error); a refused batch leaves the seen columns as they were.
pub fn accept_batch(seen: &mut Vec<(i32, i32)>, expected: &Vec<(i32, i32)>, batch: Vec<(i32, i32)>) -> (r: Result<(), ProbeError>)
    ensures
        r == (if !all_expected(batch@, expected@) {
            Err(ProbeError::Phase("moving pending stale chunk"))
        } else if !all_new(old(seen)@, batch@) {
            Err(ProbeError::Phase("moving pending duplicate"))
        } else {
            Ok::<(), ProbeError>(())
        }),
        r is Ok ==> forall|p: (i32, i32)| #[trigger] final(seen)@.contains(p) <==> (old(seen)@.contains(p) || batch@.contains(p)),
        r is Ok ==> (old(seen)@.no_duplicates() ==> final(seen)@.no_duplicates()),
        r is Err ==> final(seen)@ == old(seen)@,
{
    reject_stale_chunks(&batch, expected)?;
    reject_duplicate_chunks(seen, &batch)?;
    take_columns(seen, batch);
    Ok(())
}

/// The columns (expected_x, -2..=2): one new column of a five-wide view.
pub open spec fn new_column(expected_x: i32) -> Seq<(i32, i32)> {
    seq![(expected_x, -2i32), (expected_x, -1i32), (expected_x, 0i32), (expected_x, 1i32), (expected_x, 2i32)]
}

/// Accepts exactly the five columns (expected_x, -2..=2).
pub fn validate_new_column(positions: &Vec<(i32, i32)>, expected_x: i32) -> (r: Result<(), ProbeError>)
    ensures
        r is Ok == same_columns(positions@, new_column(expected_x)),
        r matches Err(e) ==> e == ProbeError::Phase("stream chunk positions"),
{
    let mut expected: Vec<(i32, i32)> = Vec::new();
    expected.push((expected_x, -2));
    expected.push((expected_x, -1));
    expected.push((expected_x, 0));
    expected.push((expected_x, 1));
    expected.push((expected_x, 2));
    assert(expected@ =~= new_column(expected_x));
    if same_column_set(positions, &expected) {
        Ok(())
    } else {
        Err(ProbeError::Phase("stream chunk positions"))
    }
}

/// The columns a scale-load probe starts with: a radius-two view.
pub const SCALE_LOAD_INITIAL_CHUNKS: usize = 25;

/// The columns of the radius-eight view the scale-load probe waits for.
pub const SCALE_LOAD_TOTAL_CHUNKS: usize = 289;

/// The largest follow-up batch the scale-load probe accepts.
pub const SCALE_LOAD_MAX_BATCH: usize = 8;

/// What the scale-load probe counts of the follow-up batches: how many came, the largest, and
/// the largest payload.
#[derive(Debug, Clone, Copy, PartialEq, Eq, Structural)]
pub struct ScaleLoad {
    pub followup_batches: usize,
    pub max_followup_batch: usize,
    pub max_followup_payload_bytes: usize,
}

impl ScaleLoad {
    /// Starts counting once the bootstrap batch held exactly the initial view.
    pub fn start(seen: &Vec<(i32, i32)>) -> (r: Result<ScaleLoad, ProbeError>)
        ensures
            match r {
                Ok(counts) => seen@.len() == SCALE_LOAD_INITIAL_CHUNKS && counts == (ScaleLoad {
                    followup_batches: 0,
                    max_followup_batch: 0,
                    max_followup_payload_bytes: 0,
                }),
                Err(e) => seen@.len() != SCALE_LOAD_INITIAL_CHUNKS && e == ProbeError::Phase(
                    "scale load initial chunks",
                ),
            },
    {
        if seen.len() != SCALE_LOAD_INITIAL_CHUNKS {
            return Err(ProbeError::Phase("scale load initial chunks"));
        }
        Ok(ScaleLoad { followup_batches: 0, max_followup_batch: 0, max_followup_payload_bytes: 0 })
    }

    /// Counts a follow-up batch of `positions` whose chunk payloads took `payload_bytes`, then
    /// refuses it if it repeats a seen column, else adds its columns to the seen ones.
    pub fn record(&mut self, seen: &mut Vec<(i32, i32)>, positions: Vec<(i32, i32)>, payload_bytes: usize) -> (r: Result<(), ProbeError>)
        requires
            old(self).followup_batches < usize::MAX,
        ensures
            final(self).followup_batches == old(self).followup_batches + 1,
            final(self).max_followup_batch == (if positions@.len() > old(self).max_followup_batch {
                positions@.len() as usize
            } else {
                old(self).max_followup_batch
            }),
            final(self).max_followup_payload_bytes == (if payload_bytes > old(self).max_followup_payload_bytes {
                payload_bytes
            } else {
                old(self).max_followup_payload_bytes
            }),
            r == (if all_new(old(seen)@, positions@) {
                Ok::<(), ProbeError>(())
            } else {
                Err(ProbeError::Phase("scale load duplicate chunk"))
            }),
            r is Ok ==> forall|p: (i32, i32)| #[trigger] final(seen)@.contains(p) <==> (old(seen)@.contains(p) || positions@.contains(p)),
            r is Ok ==> (old(seen)@.no_duplicates() ==> final(seen)@.no_duplicates()),
            r is Err ==> final(seen)@ == old(seen)@,
    {
        self.followup_batches = self.followup_batches + 1;
        if positions.len() > self.max_followup_batch {
            self.max_followup_batch = positions.len();
        }
        if payload_bytes > self.max_followup_payload_bytes {
            self.max_followup_payload_bytes = payload_bytes;
        }
        reject_duplicate_load_chunks(seen, &positions)?;
        take_columns(seen, positions);
        Ok(())
    }

    /// The verdict once the probe stopped reading: the whole view was seen, no batch was too
    /// large or too heavy, and at least one follow-up batch came.
    pub fn verdict(&self, seen: &Vec<(i32, i32)>, max_payload_bytes: usize) -> (r: Result<(), ProbeError>)
        ensures
            r == (if seen@.len() != SCALE_LOAD_TOTAL_CHUNKS {
                Err(ProbeError::Phase("scale load total chunks"))
            } else if self.max_followup_batch > SCALE_LOAD_MAX_BATCH {
                Err(ProbeError::Phase("scale load max batch"))
            } else if self.max_followup_payload_bytes > max_payload_bytes {
                Err(ProbeError::Phase("scale load max payload bytes"))
            } else if self.followup_batches == 0 {
                Err(ProbeError::Phase("scale load counters"))
            } else {
                Ok::<(), ProbeError>(())
            }),
    {
        if seen.len() != SCALE_LOAD_TOTAL_CHUNKS {
            return Err(ProbeError::Phase("scale load total chunks"));
        }
        if self.max_followup_batch > SCALE_LOAD_MAX_BATCH {
            return Err(ProbeError::Phase("scale load max batch"));
        }
        if self.max_followup_payload_bytes > max_payload_bytes {
            return Err(ProbeError::Phase("scale load max payload bytes"));
        }
        if self.followup_batches == 0 {
            return Err(ProbeError::Phase("scale load counters"));
        }
        Ok(())
    }
}

/// The columns (x, -4..=4): one new column of a nine-wide view.
pub open spec fn scale_column(x: i32) -> Seq<(i32, i32)> {
    Seq::new(9, |i: int| (x, (i - 4) as i32))
}

/// Accepts exactly the nine columns (x, -4..=4); otherwise fails with `phase`.
pub fn validate_scale_column(positions: &Vec<(i32, i32)>, x: i32, phase: &'static str) -> (r: Result<(), ProbeError>)
    ensures
        r == (if same_columns(positions@, scale_column(x)) {
            Ok::<(), ProbeError>(())
        } else {
            Err(ProbeError::Phase(phase))
        }),
{
    let mut expected: Vec<(i32, i32)> = Vec::new();
    let mut z: i32 = -4;
    while z <= 4
        invariant
            -4 <= z <= 5,
            expected@ == scale_column(x).subrange(0, z + 4),
        decreases 5 - z,
    {
        expected.push((x, z));
        assert(expected@ =~= scale_column(x).subrange(0, z + 5));
        z += 1;
    }
    assert(expected@ =~= scale_column(x));
    if same_column_set(positions, &expected) {
        Ok(())
    } else {
        Err(ProbeError::Phase(phase))
    }
}

/// The columns a moving-pending probe starts with: a radius-two view.
pub const MOVING_PENDING_INITIAL_CHUNKS: usize = 25;

/// Accepts the bootstrap of a moving-pending probe when it held exactly the initial view.
pub fn validate_moving_pending_start(seen: &Vec<(i32, i32)>) -> (r: Result<(), ProbeError>)
    ensures
        r == (if seen@.len() != MOVING_PENDING_INITIAL_CHUNKS {
            Err(ProbeError::Phase("moving pending initial"))
        } else {
            Ok::<(), ProbeError>(())
        }),
{
    if seen.len() != MOVING_PENDING_INITIAL_CHUNKS {
        return Err(ProbeError::Phase("moving pending initial"));
    }
    Ok(())
}

/// Accepts the end of a moving-pending probe when the seen columns are the expected ones.
pub fn validate_moving_pending_total(seen: &Vec<(i32, i32)>, expected: &Vec<(i32, i32)>) -> (r: Result<(), ProbeError>)
    ensures
        r == (if same_columns(seen@, expected@) {
            Ok::<(), ProbeError>(())
        } else {
            Err(ProbeError::Phase("moving pending total"))
        }),
{
    if same_column_set(seen, expected) {
        Ok(())
    } else {
        Err(ProbeError::Phase("moving pending total"))
    }
}

} // verus!
