//! The arguments of the browser update benchmark.
use vstd::prelude::*;

verus! {

/// Most samples a run takes.
pub const MAX_SAMPLES: u32 = 100;

/// Most updates in one sample.
pub const MAX_UPDATES: u32 = 100000;

/// Most mount and dispose cycles over all plateau batches.
pub const MAX_PLATEAU_CYCLES: u32 = 100000;

/// What the benchmark refuses of its arguments, in its order.
pub open spec fn benchmark_fault(samples: u32, updates_per_sample: u32, plateau_batches: u32, plateau_batch_cycles: u32)
    -> Option<Seq<char>> {
    if samples == 0 || samples > MAX_SAMPLES {
        Some("samples must be between 1 and 100"@)
    } else if updates_per_sample == 0 || updates_per_sample > MAX_UPDATES {
        Some("updates_per_sample must be between 1 and 100000"@)
    } else if plateau_batches * plateau_batch_cycles > u32::MAX {
        Some("plateau cycle count overflow"@)
    } else if plateau_batches < 3 || plateau_batch_cycles == 0 || plateau_batches * plateau_batch_cycles
        > MAX_PLATEAU_CYCLES {
        Some("plateau requires at least three non-empty batches and at most 100000 cycles"@)
    } else {
        None
    }
}

/// Checks the benchmark's arguments; returns the total of plateau cycles.
pub fn check_benchmark_arguments(
    samples: u32,
    updates_per_sample: u32,
    plateau_batches: u32,
    plateau_batch_cycles: u32,
) -> (r: Result<u32, String>)
    ensures
        match benchmark_fault(samples, updates_per_sample, plateau_batches, plateau_batch_cycles) {
            Some(m) => r matches Err(e) && e@ == m,
            None => r == Ok::<u32, String>((plateau_batches * plateau_batch_cycles) as u32),
        },
{
    if samples == 0 || samples > MAX_SAMPLES {
        return Err("samples must be between 1 and 100".to_owned());
    }
    if updates_per_sample == 0 || updates_per_sample > MAX_UPDATES {
        return Err("updates_per_sample must be between 1 and 100000".to_owned());
    }
    let plateau_cycles = match plateau_batches.checked_mul(plateau_batch_cycles) {
        Some(c) => c,
        None => {
            return Err("plateau cycle count overflow".to_owned());
        },
    };
    if plateau_batches < 3 || plateau_batch_cycles == 0 || plateau_cycles > MAX_PLATEAU_CYCLES {
        return Err("plateau requires at least three non-empty batches and at most 100000 cycles".to_owned());
    }
    Ok(plateau_cycles)
}

} // verus!
