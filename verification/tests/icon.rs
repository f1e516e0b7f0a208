use quota_tray::burn::BurnResult;
use quota_tray::icon::{
    bucket_for, bucket_name, cache_step, colors_hash, inner_color_for, outer_color, parse_hex_rgb,
    pixmap_to_bgra, ring_paint, ring_svg_path, static_icons, static_svg_path, svg_for, svg_static,
    track_alpha, write_ring_svg, write_static_svgs, Bucket,
};
use quota_tray::provider::{
    default_inner_colors, default_ring_colors, BucketColors, RingColors, RingColorsRepr,
};
use quota_tray::ratio::Ratio;


#[test]
fn bucket_thresholds() {
    assert_eq!(bucket_for(0, false, 60, None), Bucket::Throttled);
    assert_eq!(bucket_for(50, false, 60, None), Bucket::Normal);
    assert_eq!(bucket_for(35, false, 60, None), Bucket::Warning);
    assert_eq!(bucket_for(14, false, 60, None), Bucket::Warning);
    assert_eq!(bucket_for(80, true, 60, None), Bucket::Throttled);
    assert_eq!(bucket_for(1, false, 60, None), Bucket::Warning);
    assert_eq!(bucket_for(40, false, 60, None), Bucket::Warning);
    assert_eq!(bucket_for(41, false, 60, None), Bucket::Normal);
}

#[test]
fn bucket_burn_flip_to_warning() {
    let healthy = BurnResult {
        rate_per_hour: Ratio::from_u64(0),
        mode: "pct",
        unit: "pct",
        exhaust_ms: None,
        remaining_ms: 3_600_000,
        exhaust_before_reset: false,
        projected_pct_left: Ratio::from_u64(90),
    };
    assert_eq!(
        bucket_for(90, false, 60, Some(&healthy)),
        Bucket::Normal
    );
    let alarming = BurnResult {
        exhaust_before_reset: true,
        ..healthy
    };
    assert_eq!(
        bucket_for(90, false, 60, Some(&alarming)),
        Bucket::Warning
    );
    assert_eq!(
        bucket_for(20, false, 60, Some(&alarming)),
        Bucket::Warning
    );
    assert_eq!(
        bucket_for(0, false, 60, Some(&alarming)),
        Bucket::Throttled
    );
}

#[test]
fn svg_contains_ring_elements() {
    let s = svg_for(80, "#3a9d4d", "#3584e4");
    assert!(s.contains("<svg"));
    assert!(
        s.contains("stroke=\"#3584e4\""),
        "outer ring should use the outer color; got: {s}"
    );
    assert!(
        s.contains("43.989") || s.contains("43.990"),
        "expected corrected dasharray ~43.99; got: {s}"
    );
}

#[test]
fn svg_has_inner_dot() {
    let s = svg_for(80, "#3a9d4d", "#3584e4");
    assert!(
        s.contains("r=\"3.5\""),
        "inner dot circle missing (r=3.5); got: {s}"
    );
    assert!(
        s.contains("fill=\"#3a9d4d\""),
        "inner dot fill should match inner color (bucket); got: {s}"
    );
}

#[test]
fn svg_inner_and_outer_use_distinct_colors() {
    let s = svg_for(80, "#ff0000", "#00ff00");
    assert!(
        s.contains("stroke=\"#00ff00\""),
        "outer ring stroke should use outer color #00ff00; got: {s}"
    );
    assert!(
        s.contains("fill=\"#ff0000\""),
        "inner dot fill should use inner color #ff0000; got: {s}"
    );
}

#[test]
fn svg_uses_round_caps_on_progress_arc() {
    let s = svg_for(80, "#3a9d4d", "#3584e4");
    assert!(
        s.contains("stroke-linecap=\"round\""),
        "progress arc should use stroke-linecap=round; got: {s}"
    );
}

#[test]
fn svg_track_is_faded_color_not_separate_grey() {
    let s = svg_for(80, "#3a9d4d", "#3584e4");
    assert!(
        s.contains("stroke-opacity=\"0.25\""),
        "track should use stroke-opacity=0.25; got: {s}"
    );
    assert!(
        !s.contains("#3a3a3a"),
        "track should NOT use the legacy dark grey color; got: {s}"
    );
}

#[test]
fn svg_stroke_width_matches_gjs() {
    let s = svg_for(80, "#3a9d4d", "#3584e4");
    assert!(
        s.contains("stroke-width=\"2.5\""),
        "ring stroke-width should be 2.5; got: {s}"
    );
}

#[test]
fn ring_colors_match_gjs() {
    let colors = default_ring_colors();
    assert_eq!(inner_color_for(Bucket::Normal, &colors), "#3a9d4d");
    assert_eq!(inner_color_for(Bucket::Warning, &colors), "#f6d32d");
    assert_eq!(inner_color_for(Bucket::Throttled, &colors), "#e01b24");
    assert_eq!(outer_color(&colors), "#3584e4");
}

#[test]
fn ring_colors_per_instance_override() {
    let alt = RingColors {
        inner: BucketColors {
            normal: "#3366ff".to_string(),
            warning: "#ff9900".to_string(),
            throttled: "#9933ff".to_string(),
        },
        outer: "#1d8b3a".to_string(),
        cached_hash: 0,
    };
    assert_eq!(inner_color_for(Bucket::Normal, &alt), "#3366ff");
    assert_eq!(inner_color_for(Bucket::Warning, &alt), "#ff9900");
    assert_eq!(inner_color_for(Bucket::Throttled, &alt), "#9933ff");
    assert_eq!(outer_color(&alt), "#1d8b3a");
}

#[test]
fn dasharray_at_zero_pct_is_only_round_cap() {
    let s = svg_for(0, "#3a9d4d", "#3584e4");
    assert!(
        s.contains("0.000"),
        "expected zero-length dasharray at pct=0; got: {s}"
    );
}

#[test]
fn svg_clamps_pct() {
    let s1 = svg_for(150, "#a8d1a3", "#3584e4");
    let s2 = svg_for(-50, "#a8d1a3", "#3584e4");
    assert!(s1.contains("<svg"));
    assert!(s2.contains("<svg"));
}

#[test]
fn cache_step_rounds_to_nearest_two_pct() {
    assert_eq!(cache_step(0), 0);
    assert_eq!(cache_step(1), 0);
    assert_eq!(cache_step(2), 2);
    assert_eq!(cache_step(50), 50);
    assert_eq!(cache_step(99), 98);
    assert_eq!(cache_step(100), 100);
    assert_eq!(cache_step(-5), 0);
    assert_eq!(cache_step(150), 100);
}

#[test]
fn bucket_names() {
    assert_eq!(bucket_name(Bucket::Normal), "normal");
    assert_eq!(bucket_name(Bucket::Warning), "warning");
    assert_eq!(bucket_name(Bucket::Throttled), "throttled");
}

fn default_colors() -> RingColors {
    default_ring_colors()
}

#[test]
fn ring_svg_path_uses_svg_extension() {
    let p = ring_svg_path("/tmp", 80, &default_colors());
    assert!(
        p.ends_with(".svg"),
        "expected .svg extension; got {p:?}"
    );
}

#[test]
fn ring_svg_path_clamps_out_of_range_pct() {
    let c = default_colors();
    assert!(ring_svg_path("/tmp", 0, &c).contains("-0-"));
    assert!(ring_svg_path("/tmp", 100, &c).contains("-100-"));
    assert!(ring_svg_path("/tmp", -5, &c).contains("-0-"));
    assert!(ring_svg_path("/tmp", 150, &c).contains("-100-"));
}

#[test]
fn static_svg_path_uses_svg_extension() {
    let c = default_colors();
    for name in ["normal", "warning", "throttled", "error", "offline"] {
        let p = static_svg_path("/tmp", name, &c);
        let needle = format!("-{name}-");
        assert!(
            p.contains(&needle),
            "expected `{needle}` segment; got {p:?}"
        );
    }
}

#[test]
fn color_change_produces_different_path() {
    let c1 = RingColors {
        inner: BucketColors {
            normal: "#3a9d4d".into(),
            warning: "#f6d32d".into(),
            throttled: "#e01b24".into(),
        },
        outer: "#3584e4".into(),
        cached_hash: 0xAAAAAAAAAAAAAAAA,
    };
    let c2 = RingColors {
        inner: c1.inner.clone(),
        outer: "#0c8599".into(),
        cached_hash: 0xBBBBBBBBBBBBBBBB,
    };

    let p1 = ring_svg_path("/tmp", 51, &c1);
    let p2 = ring_svg_path("/tmp", 51, &c2);
    assert_ne!(
        p1, p2,
        "changing outer color must produce a fresh path; \
                got {p1:?} == {p2:?}"
    );

    let s1 = static_svg_path("/tmp", "normal", &c1);
    let s2 = static_svg_path("/tmp", "normal", &c2);
    assert_ne!(
        s1, s2,
        "changing outer color must produce a fresh static path; \
                got {s1:?} == {s2:?}"
    );
}

#[test]
fn same_colors_produce_same_path() {
    let c = default_colors();
    let p1 = ring_svg_path("/tmp", 42, &c);
    let p2 = ring_svg_path("/tmp", 42, &c);
    assert_eq!(
        p1, p2,
        "same colors + same pct must produce the same path \
                (cache-keyed; otherwise we'd churn writes every poll)"
    );
}

#[test]
fn colors_hash_is_stable() {
    let c = default_colors();
    let h1 = colors_hash(&c);
    let h2 = colors_hash(&c);
    assert_eq!(h1, h2);

    let c2 = RingColorsRepr {
        inner: Some(default_inner_colors()),
        outer: Some("#000000".to_string()),
        normal: None,
        warning: None,
        throttled: None,
    }
    .into_colors();
    assert_ne!(colors_hash(&c), colors_hash(&c2));
}

#[test]
fn svg_static_renders_single_filled_circle() {
    let s = svg_static("#3a9d4d");
    assert!(s.starts_with("<svg"));
    assert!(s.contains("viewBox=\"0 0 22 22\""));
    assert!(s.contains("width=\"22\""));
    assert!(s.contains("height=\"22\""));
    assert!(s.contains("cx=\"11\" cy=\"11\" r=\"9\""));
    assert!(s.contains("fill=\"#3a9d4d\""));
    assert!(
        !s.contains("stroke="),
        "static SVG should have no stroke; got: {s}"
    );
    assert!(
        !s.contains("stroke-dasharray"),
        "static SVG should have no dasharray; got: {s}"
    );
}

#[test]
fn svg_static_uses_each_static_color() {
    assert!(svg_static("#3a9d4d").contains("fill=\"#3a9d4d\""));
    assert!(svg_static("#f6d32d").contains("fill=\"#f6d32d\""));
    assert!(svg_static("#e01b24").contains("fill=\"#e01b24\""));
    assert!(svg_static("#9a9996").contains("fill=\"#9a9996\""));
}

#[test]
fn write_static_svgs_writes_to_tmpdir() {
    let colors = default_ring_colors();
    let files = write_static_svgs("/some/dir", &colors);
    assert_eq!(files.len(), 5);
    for (i, name) in ["normal", "warning", "throttled", "error", "offline"].iter().enumerate() {
        assert_eq!(files[i].path, static_svg_path("/some/dir", name, &colors));
        assert!(files[i].path.starts_with("/some/dir/"));
        assert!(files[i].svg.starts_with("<svg"));
        assert!(files[i].svg.contains("circle"));
    }
}

#[test]
fn buckets_are_ordered_by_significance() {
    assert!(Bucket::Normal < Bucket::Warning);
    assert!(Bucket::Warning < Bucket::Throttled);
}

#[test]
fn ring_lengths_are_exact() {
    assert!(svg_for(80, "#3a9d4d", "#3584e4").contains("43.989 12.560"));
    assert!(svg_for(0, "#3a9d4d", "#3584e4").contains("0.000 56.549"));
    assert!(svg_for(100, "#3a9d4d", "#3584e4").contains("55.299 1.250"));
}

#[test]
fn ring_file_has_path_and_contents() {
    let colors = default_ring_colors();
    let file = write_ring_svg("/tmp", 42, Bucket::Warning, &colors);
    assert_eq!(file.path, ring_svg_path("/tmp", 42, &colors));
    assert_eq!(file.svg, svg_for(42, "#f6d32d", "#3584e4"));
    assert!(file.path.starts_with("/tmp/llm-quota-ring-42-"));
}

#[test]
fn static_icons_reuse_the_exhausted_color_for_errors() {
    let icons = static_icons(&default_ring_colors());
    assert_eq!(icons[2].1, icons[3].1);
    assert_eq!(icons[4], ("offline", "#9a9996".to_string()));
}

#[test]
fn colors_are_six_hex_digits() {
    assert_eq!(parse_hex_rgb("#3584e4"), Some((0x35, 0x84, 0xe4)));
    assert_eq!(parse_hex_rgb("#ABCDEF"), Some((0xab, 0xcd, 0xef)));
    assert_eq!(parse_hex_rgb("3584e4"), None);
    assert_eq!(parse_hex_rgb("#3584e"), None);
    assert_eq!(parse_hex_rgb("#3584e4f"), None);
    assert_eq!(parse_hex_rgb("#+584e4"), None);
    assert_eq!(parse_hex_rgb(""), None);
}

#[test]
fn paint_is_taken_from_the_palette() {
    let paint = ring_paint(120, Bucket::Throttled, &default_ring_colors()).unwrap();
    assert_eq!((paint.track.r, paint.track.g, paint.track.b), (0x35, 0x84, 0xe4));
    assert_eq!(paint.track.a, track_alpha());
    assert_eq!((paint.arc.b, paint.arc.a), (0xe4, 255));
    assert_eq!((paint.dot.r, paint.dot.g, paint.dot.b), (0xe0, 0x1b, 0x24));
    assert_eq!(paint.pct, 100);
    let mut broken = default_ring_colors();
    broken.outer = "blue".to_string();
    assert!(ring_paint(50, Bucket::Normal, &broken).is_none());
}

#[test]
fn swapping_channels_twice_is_nothing() {
    let pixels: Vec<u8> = vec![1, 2, 3, 4, 5, 6, 7, 8];
    let swapped = pixmap_to_bgra(&pixels);
    assert_eq!(swapped, vec![3, 2, 1, 4, 7, 6, 5, 8]);
    assert_eq!(pixmap_to_bgra(&swapped), pixels);
}

#[test]
fn file_names_tell_icons_apart() {
    let colors = default_ring_colors();
    let other = RingColorsRepr {
        inner: None,
        outer: Some("#000000".to_string()),
        normal: None,
        warning: None,
        throttled: None,
    }
    .into_colors();
    let mut names = Vec::new();
    for c in [&colors, &other] {
        for pct in 0..=100 {
            names.push(ring_svg_path("/tmp", pct, c));
        }
        for name in ["normal", "warning", "throttled", "error", "offline"] {
            names.push(static_svg_path("/tmp", name, c));
        }
    }
    let all = names.len();
    names.sort();
    names.dedup();
    assert_eq!(names.len(), all);
}
