use agave_runtime::fpga::{
    per_core_lens, poh_core_base_addrs, poh_job_core_lens, reset_kernel_commands, Error,
    FpgaPerfBuffers, NUM_POH_CORES, VARIUM_HBM_MAX_HASHES,
};
use agave_runtime::poh_core::PohCoreBaseAddrs;
use warp_devices::xdma::DmaBuffer;

#[test]
fn base_addrs_are_correct() {
    let expected_base_addrs = vec![
        PohCoreBaseAddrs {
            shell_base: 0x6_0000,
            hashes_base: 0x0000_0000,
            num_iters_base: 0x1000_0000,
        },
        PohCoreBaseAddrs {
            shell_base: 0x6_1000,
            hashes_base: 0x2000_0000,
            num_iters_base: 0x3000_0000,
        },
        PohCoreBaseAddrs {
            shell_base: 0x6_2000,
            hashes_base: 0x4000_0000,
            num_iters_base: 0x5000_0000,
        },
        PohCoreBaseAddrs {
            shell_base: 0x6_3000,
            hashes_base: 0x6000_0000,
            num_iters_base: 0x7000_0000,
        },
    ];
    assert_eq!(poh_core_base_addrs(), expected_base_addrs);
}

#[test]
fn per_core_lens_are_correct() {
    assert_eq!(per_core_lens(0), vec![0, 0, 0, 0]);
    assert_eq!(per_core_lens(1), vec![1, 0, 0, 0]);
    assert_eq!(per_core_lens(10), vec![4, 2, 2, 2]);
    assert_eq!(per_core_lens(201), vec![51, 50, 50, 50]);
    assert_eq!(per_core_lens(100_003), vec![25_003, 25_000, 25_000, 25_000]);
}

fn unique_hashes(first: u64, n: usize) -> Vec<[u8; 32]> {
    (0..n as u64)
        .map(|i| {
            let mut b = [0u8; 32];
            b[0..8].copy_from_slice(&(first + i).to_le_bytes());
            b
        })
        .collect()
}

#[test]
fn buffer_unbuffer() {
    const NUM_HASHES: usize = 5;
    let per_core_lens = per_core_lens(NUM_HASHES);
    let expected_outputs = unique_hashes(1, NUM_HASHES);
    let input_hashes = expected_outputs.clone();
    let mut output_hashes = unique_hashes(100, NUM_HASHES);
    let num_iters: Vec<_> = (0..NUM_HASHES as u64).collect();
    let mut buffers = FpgaPerfBuffers::new(per_core_lens);

    buffers.buffer_inputs(&input_hashes, &num_iters);
    buffers.unbuffer_outputs(&mut output_hashes);

    assert_eq!(output_hashes, expected_outputs);
}

#[test]
fn per_core_lens_sum_to_total() {
    for n in [0usize, 1, 3, 4, 7, 1000, 100_003] {
        let lens = per_core_lens(n);
        assert_eq!(lens.len(), NUM_POH_CORES);
        assert_eq!(lens.iter().sum::<usize>(), n);
    }
}

#[test]
fn buffers_frame_hashes_and_iterations_per_core() {
    let hashes = unique_hashes(7, 6);
    let num_iters: Vec<u64> = vec![10, 20, 30, 40, 50, 0x0102_0304_0506_0708];
    let mut buffers = FpgaPerfBuffers::new(per_core_lens(6));
    buffers.buffer_inputs(&hashes, &num_iters);
    // core 0 takes 1 + 2 hashes, the others 1 each
    let lens: Vec<usize> = buffers.dma_bufs.iter().map(|b| b.num_hashes).collect();
    assert_eq!(lens, vec![3, 1, 1, 1]);
    let core0: &DmaBuffer = &buffers.dma_bufs[0].hashes_buf;
    assert_eq!(core0.get().len(), 96);
    assert_eq!(&core0.get()[32..64], &hashes[1][..]);
    let last_iters = buffers.dma_bufs[3].num_iters_buf.get();
    assert_eq!(last_iters.as_slice(), &[8, 7, 6, 5, 4, 3, 2, 1]);
    assert_eq!(&buffers.dma_bufs[1].num_iters_buf.get()[..], &40u64.to_le_bytes());
}

#[test]
fn unbuffer_leaves_elements_past_the_parts() {
    let hashes = unique_hashes(1, 4);
    let mut buffers = FpgaPerfBuffers::new(per_core_lens(4));
    buffers.buffer_inputs(&hashes, &[1, 2, 3, 4]);
    let mut out = unique_hashes(50, 6);
    let tail = out[4..].to_vec();
    buffers.unbuffer_outputs(&mut out);
    assert_eq!(&out[..4], &hashes[..]);
    assert_eq!(&out[4..], &tail[..]);
}

#[test]
fn job_checks_lengths_and_capacity() {
    let hashes = unique_hashes(1, 3);
    assert!(matches!(poh_job_core_lens(&hashes, &[1, 2]), Err(Error::InputLengthMismatch)));
    let lens = poh_job_core_lens(&hashes, &[1, 2, 3]).unwrap();
    assert_eq!(lens, vec![3, 0, 0, 0]);
    let empty: Vec<[u8; 32]> = Vec::new();
    assert_eq!(poh_job_core_lens(&empty, &[]).unwrap(), vec![0, 0, 0, 0]);
    assert_eq!(VARIUM_HBM_MAX_HASHES, 16 * 256 * 1024 * 1024 / 32);
}

#[test]
fn reset_commands_enter_and_leave_reset() {
    assert_eq!(reset_kernel_commands(), vec![[0xff, 0xff, 0xff, 0xff], [0, 0, 0, 0]]);
}

#[test]
fn buffers_are_made_with_room_for_their_core() {
    let buffers = FpgaPerfBuffers::new(vec![3, 0, 200, 1]);
    for buf in &buffers.dma_bufs {
        assert!(buf.hashes_buf.get().is_empty());
        assert!(buf.hashes_buf.get().capacity() >= 32 * buf.num_hashes);
        assert!(buf.num_iters_buf.get().capacity() >= 8 * buf.num_hashes);
    }
}
