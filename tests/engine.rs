use caligula::engine::{VerifyOp, WriteOp};
use caligula::ipc::{ErrorType, StatusMessage};
use caligula::memory::{MemSource, MemTarget, MessageLog};

fn make_random(n: usize, seed: u64) -> Vec<u8> {
    let mut state = seed.wrapping_mul(6364136223846793005).wrapping_add(1442695040888963407);
    let mut out = Vec::with_capacity(n);
    for _ in 0..n {
        state = state.wrapping_mul(6364136223846793005).wrapping_add(1442695040888963407);
        out.push((state >> 33) as u8);
    }
    out
}

struct WriteRun {
    file: Vec<u8>,
    disk: Vec<u8>,
    writes: Vec<usize>,
    events: Vec<StatusMessage>,
    result: Result<(), ErrorType>,
}

fn write_run(file_size: usize, disk_size: usize, buf_size: usize, period: usize) -> WriteRun {
    let file = make_random(file_size, file_size as u64);
    let mut src = MemSource::new(file.clone());
    let mut dest = MemTarget::new(make_random(disk_size, 7));
    let mut log = MessageLog::new();
    let op = WriteOp {
        buf_size,
        checkpoint_period: period,
    };
    let result = op.execute(&mut src, &mut dest, &mut log);
    WriteRun {
        file,
        disk: dest.bytes().clone(),
        writes: dest.write_sizes().clone(),
        events: log.messages().clone(),
        result,
    }
}

fn verify_run(file: &[u8], disk: &[u8], buf_size: usize, period: usize) -> Result<(), ErrorType> {
    let mut src = MemSource::new(file.to_vec());
    let mut dest = MemTarget::new(disk.to_vec());
    let mut log = MessageLog::new();
    let op = VerifyOp {
        buf_size,
        checkpoint_period: period,
    };
    op.execute(&mut src, &mut dest, &mut log)
}

fn total(src: u64, dest: u64) -> StatusMessage {
    StatusMessage::TotalBytes { src, dest }
}

#[test]
fn write_op_works() {
    let run = write_run(1024, 2048, 16, 16);
    assert_eq!(run.result, Ok(()));

    for w in &run.writes {
        assert_eq!(*w, 16);
    }
    assert_eq!(&run.disk[..run.file.len()], &run.file[..]);
    assert_eq!(
        run.events,
        vec![
            total(256, 256),
            total(512, 512),
            total(768, 768),
            total(1024, 1024),
            total(1024, 1024),
        ]
    );
}

#[test]
fn write_sink_works() {
    let run = write_run(1024, 2048, 16, 16);
    assert_eq!(&run.disk[..1024], &run.file[..]);
    assert_eq!(
        run.events,
        vec![
            total(256, 256),
            total(512, 512),
            total(768, 768),
            total(1024, 1024),
            total(1024, 1024),
        ]
    );
}

#[test]
fn write_copies_source_for_every_buffer_size() {
    for buf_size in [1usize, 16, 500, 1001] {
        let run = write_run(1000, 1000, buf_size, 16);
        assert_eq!(run.result, Ok(()));
        assert_eq!(run.disk, run.file);
    }
}

#[test]
fn write_keeps_destination_bytes_past_the_source() {
    let file = make_random(100, 3);
    let disk = make_random(300, 4);
    let mut src = MemSource::new(file.clone());
    let mut dest = MemTarget::new(disk.clone());
    let mut log = MessageLog::new();
    let op = WriteOp {
        buf_size: 32,
        checkpoint_period: 2,
    };
    assert_eq!(op.execute(&mut src, &mut dest, &mut log), Ok(()));
    assert_eq!(&dest.bytes()[..100], &file[..]);
    assert_eq!(&dest.bytes()[100..], &disk[100..]);
}

#[test]
fn write_misaligned_file_works() {
    for file_size in [0usize, 1, 33, 382, 438, 993] {
        for buf_size in [16usize, 32, 48, 64, 128] {
            let run = write_run(file_size, 1024, buf_size, 16);
            assert_eq!(run.result, Ok(()));
            assert_eq!(&run.disk[..file_size], &run.file[..]);
            let n = run.writes.len();
            for (i, w) in run.writes.iter().enumerate() {
                if i + 1 < n {
                    assert_eq!(*w, buf_size);
                } else {
                    assert!(*w > 0 && *w <= buf_size);
                }
            }
            assert_eq!(n, (file_size + buf_size - 1) / buf_size);
        }
    }
}

#[test]
fn write_file_larger_than_disk() {
    for file_size in [1001usize, 1032, 2000, 6000, 7000] {
        let run = write_run(file_size, 1000, 500, 16);
        assert_eq!(run.result, Err(ErrorType::EndOfOutput));
        assert_eq!(&run.disk[..], &run.file[..1000]);
    }
}

#[test]
fn write_short_by_one_byte_is_end_of_output() {
    let run = write_run(1000, 999, 16, 4);
    assert_eq!(run.result, Err(ErrorType::EndOfOutput));
}

#[test]
fn write_to_growing_file() {
    let file = make_random(70, 9);
    let mut src = MemSource::new(file.clone());
    let mut dest = MemTarget::growable();
    let mut log = MessageLog::new();
    let op = WriteOp {
        buf_size: 16,
        checkpoint_period: 2,
    };
    assert_eq!(op.execute(&mut src, &mut dest, &mut log), Ok(()));
    assert_eq!(dest.bytes(), &file);
    assert_eq!(dest.write_sizes(), &vec![16, 16, 16, 16, 6]);
    assert_eq!(
        log.messages(),
        &vec![total(32, 32), total(64, 64), total(70, 70)]
    );
}

#[test]
fn checkpoints_follow_block_counts() {
    let run = write_run(1000, 1000, 16, 16);
    assert_eq!(
        run.events,
        vec![
            total(256, 256),
            total(512, 512),
            total(768, 768),
            total(1000, 1000)
        ]
    );
    let run = write_run(255, 300, 16, 16);
    assert_eq!(run.events, vec![total(255, 255), total(255, 255)]);
    let run = write_run(0, 10, 16, 16);
    assert_eq!(run.events, vec![total(0, 0)]);
    assert!(run.writes.is_empty());
}

#[test]
fn verify_happy_case_works() {
    let file = make_random(4096, 1);
    let disk = file.clone();
    assert_eq!(verify_run(&file, &disk, 128, 32), Ok(()));
}

#[test]
fn verify_sad_case_works() {
    let file = make_random(4096, 1);
    let mut disk = file.clone();
    disk[10] = !disk[10];
    assert_eq!(
        verify_run(&file, &disk, 128, 32),
        Err(ErrorType::VerificationFailed)
    );
}

#[test]
fn verify_misaligned_case_happy_path_works() {
    for file_size in [101usize, 103, 4348, 8337] {
        let file = make_random(file_size, file_size as u64);
        let mut disk = make_random(16384, 5);
        disk[..file_size].copy_from_slice(&file);
        assert_eq!(verify_run(&file, &disk, 128, 32), Ok(()));
    }
}

#[test]
fn verify_misaligned_case_sad_path_works() {
    let file_size = 4231;
    for flip_offset in [0usize, 1, 127, 128, 129, 834, 4223, 4224, 4230] {
        let file = make_random(file_size, 11);
        let mut disk = make_random(16384, 12);
        disk[..file_size].copy_from_slice(&file);
        disk[flip_offset] = !disk[flip_offset];
        assert_eq!(
            verify_run(&file, &disk, 128, 32),
            Err(ErrorType::VerificationFailed)
        );
    }
}

#[test]
fn verify_ignores_bytes_past_the_source() {
    let file = make_random(4231, 11);
    let mut disk = make_random(16384, 12);
    disk[..4231].copy_from_slice(&file);
    disk[4310] = !disk[4310];
    assert_eq!(verify_run(&file, &disk, 128, 32), Ok(()));
}

#[test]
fn verify_for_uneven_block_sizes() {
    let file = make_random(1000, 2);
    for buf_size in [1usize, 3, 7, 128, 999, 1000, 4096] {
        assert_eq!(verify_run(&file, &file, buf_size, 3), Ok(()));
    }
}

#[test]
fn verify_short_destination_is_end_of_output() {
    let file = make_random(1000, 2);
    assert_eq!(
        verify_run(&file, &file[..900], 128, 4),
        Err(ErrorType::EndOfOutput)
    );
}

#[test]
fn verify_checkpoints_count_bytes_read_back() {
    let file = make_random(300, 2);
    let mut disk = make_random(1000, 3);
    disk[..300].copy_from_slice(&file);
    let mut src = MemSource::new(file);
    let mut dest = MemTarget::new(disk);
    let mut log = MessageLog::new();
    let op = VerifyOp {
        buf_size: 128,
        checkpoint_period: 2,
    };
    assert_eq!(op.execute(&mut src, &mut dest, &mut log), Ok(()));
    assert_eq!(log.messages(), &vec![total(256, 256), total(300, 384)]);
}

#[test]
fn verify_short_block_reports_end_of_output_first() {
    let file = make_random(1000, 2);
    let mut disk = file[..900].to_vec();
    disk[899] = !disk[899];
    assert_eq!(verify_run(&file, &disk, 128, 4), Err(ErrorType::EndOfOutput));
    disk[850] = !disk[850];
    assert_eq!(
        verify_run(&file, &disk, 128, 4),
        Err(ErrorType::VerificationFailed)
    );
}

#[test]
fn verify_stops_at_first_differing_block() {
    let file = make_random(2048, 5);
    let mut disk = file.clone();
    disk[300] = !disk[300];
    let mut src = MemSource::new(file);
    let mut dest = MemTarget::new(disk);
    let mut log = MessageLog::new();
    let op = VerifyOp {
        buf_size: 128,
        checkpoint_period: 1,
    };
    assert_eq!(
        op.execute(&mut src, &mut dest, &mut log),
        Err(ErrorType::VerificationFailed)
    );
    assert_eq!(log.messages(), &vec![total(128, 128), total(256, 256)]);
}
