use raytracer::scene::{FrameData, RenderParam};

#[test]
fn accumulation_sequence_from_reset() {
    let mut p = RenderParam {
        samples_max_per_pixel: 16,
        samples_per_pixel: 4,
        total_samples: 0,
        clear_samples: 0,
        max_depth: 8,
    };

    let mut totals = Vec::new();
    let mut clears = Vec::new();
    for _ in 0..5 {
        p.update();
        totals.push(p.total_samples);
        clears.push(p.clear_samples);
    }
    assert_eq!(totals, vec![4, 8, 12, 16, 20]);
    assert_eq!(clears, vec![1, 0, 0, 0, 0]);
    assert_eq!(p.samples_per_pixel, 4);

    // 20 > 16: the next frame converges and zeroes the rate.
    p.update();
    assert_eq!(p.total_samples, 20);
    assert_eq!(p.samples_per_pixel, 0);
    assert_eq!(p.clear_samples, 0);
}

#[test]
fn converged_state_is_sticky() {
    let mut p = RenderParam {
        samples_max_per_pixel: 4,
        samples_per_pixel: 8,
        total_samples: 0,
        clear_samples: 0,
        max_depth: 2,
    };
    p.update(); // 8, clear
    p.update(); // 8 > 4: converged, rate zeroed
    assert_eq!(p.samples_per_pixel, 0);

    // Zeroing only total_samples is not enough: the zeroed rate keeps
    // the accumulator stuck at zero samples.
    p.total_samples = 0;
    for _ in 0..3 {
        p.update();
        assert_eq!(p.total_samples, 0);
        assert_eq!(p.samples_per_pixel, 0);
    }
}

#[test]
fn reset_accumulation_restores_the_rate() {
    let mut p = RenderParam {
        samples_max_per_pixel: 4,
        samples_per_pixel: 8,
        total_samples: 0,
        clear_samples: 0,
        max_depth: 2,
    };
    p.update();
    p.update(); // converged
    assert_eq!(p.samples_per_pixel, 0);

    p.reset_accumulation(8);
    assert_eq!(p.total_samples, 0);
    assert_eq!(p.samples_per_pixel, 8);
    assert_eq!(p.max_depth, 2);

    p.update();
    assert_eq!(p.total_samples, 8);
    assert_eq!(p.clear_samples, 1);
}

#[test]
fn max_depth_never_changes() {
    let mut p = RenderParam {
        samples_max_per_pixel: 2,
        samples_per_pixel: 1,
        total_samples: 0,
        clear_samples: 0,
        max_depth: 50,
    };
    for _ in 0..6 {
        p.update();
        assert_eq!(p.max_depth, 50);
        assert_eq!(p.samples_max_per_pixel, 2);
    }
}

#[test]
fn frame_data_compares_by_size_only() {
    let a = FrameData { width: 800, height: 600, index: 1 };
    let b = FrameData { width: 800, height: 600, index: 999 };
    let c = FrameData { width: 801, height: 600, index: 1 };
    assert!(a == b);
    assert!(a != c);
}
