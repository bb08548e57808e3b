use channels_plot::chart::{palette_color, plan_chart, render, y_bounds, Rgb, MAX_CHANNELS};
use channels_plot::ChartError;

#[test]
fn deinterleave_three_channels() {
    let samples = vec![1u16, 2, 3, 4, 5, 6];
    let plan = render(&samples, 3).unwrap();
    assert_eq!(plan.series.len(), 3);
    assert_eq!(plan.series[0].values, vec![1u16, 4]);
    assert_eq!(plan.series[1].values, vec![2u16, 5]);
    assert_eq!(plan.series[2].values, vec![3u16, 6]);
    assert_eq!(plan.series[0].channel, 0);
    assert_eq!(plan.series[1].channel, 1);
    assert_eq!(plan.series[2].channel, 2);
    assert_eq!(plan.x_len, 2);
}

#[test]
fn reinterleave_reconstructs_truncated_samples() {
    let samples = vec![10u16, 20, 30, 40, 50, 60, 70];
    let channels = 3;
    let plan = render(&samples, channels).unwrap();
    let rounds = samples.len() / channels;
    let mut rebuilt: Vec<u16> = Vec::new();
    for i in 0..rounds {
        for series in &plan.series {
            rebuilt.push(series.values[i]);
        }
    }
    assert_eq!(rebuilt, samples[..channels * rounds]);
}

#[test]
fn zero_channels_is_config_error() {
    let samples = vec![1u16, 2, 3];
    assert!(matches!(render(&samples, 0), Err(ChartError::ConfigError)));
}

#[test]
fn too_many_channels_is_config_error() {
    let samples = vec![1u16, 2, 3, 4, 5, 6];
    assert!(matches!(
        render(&samples, MAX_CHANNELS + 1),
        Err(ChartError::ConfigError)
    ));
}

#[test]
fn empty_samples_is_config_error() {
    let samples: Vec<u16> = Vec::new();
    assert!(matches!(render(&samples, 2), Err(ChartError::ConfigError)));
}

#[test]
fn bounds_keep_margin_around_samples() {
    let samples = vec![1000u16, 3000, 2000];
    let (lo, hi) = y_bounds(&samples);
    assert_eq!(lo, 800);
    assert_eq!(hi, 3200);
    for &s in &samples {
        assert!(lo <= s as u32 && (s as u32) <= hi);
    }
}

#[test]
fn bounds_clamp_at_zero() {
    let samples = vec![100u16, 5000];
    let (lo, hi) = y_bounds(&samples);
    assert_eq!(lo, 0);
    assert_eq!(hi, 5200);
    for &s in &samples {
        assert!(lo <= s as u32 && (s as u32) <= hi);
    }
}

#[test]
fn palette_cycles_over_five_colors() {
    assert_eq!(palette_color(0), Rgb { red: 255, green: 0, blue: 0 });
    assert_eq!(palette_color(1), Rgb { red: 0, green: 255, blue: 0 });
    assert_eq!(palette_color(2), Rgb { red: 0, green: 0, blue: 255 });
    assert_eq!(palette_color(3), Rgb { red: 0, green: 255, blue: 255 });
    assert_eq!(palette_color(4), Rgb { red: 255, green: 0, blue: 255 });
    assert_eq!(palette_color(5), palette_color(0));
}

#[test]
fn series_points_enumerate_values() {
    let samples = vec![9u16, 8, 7, 6];
    let plan = render(&samples, 2).unwrap();
    assert_eq!(plan.series[0].points(), vec![(0u32, 9u32), (1, 7)]);
    assert_eq!(plan.series[1].points(), vec![(0u32, 8u32), (1, 6)]);
}

#[test]
fn plan_chart_runs_the_whole_pipeline() {
    let bytes = vec![0x44u8, 0x09, 0xF3, 0x06, 0xD1, 0x05];
    let plan = plan_chart(&bytes, 1).unwrap();
    assert_eq!(plan.series.len(), 1);
    assert_eq!(plan.series[0].values, vec![2372u16, 1779, 1489]);
    assert_eq!(plan.x_len, 3);
    assert_eq!(plan.y_min, 1489 - 200);
    assert_eq!(plan.y_max, 2372 + 200);
}

#[test]
fn plan_chart_empty_bytes_is_decode_error() {
    let bytes: Vec<u8> = Vec::new();
    assert!(matches!(plan_chart(&bytes, 1), Err(ChartError::DecodeError)));
}

#[test]
fn plan_chart_bad_channel_count_is_config_error() {
    let bytes = vec![1u8, 2, 3, 4];
    assert!(matches!(plan_chart(&bytes, 0), Err(ChartError::ConfigError)));
    assert!(matches!(plan_chart(&bytes, 6), Err(ChartError::ConfigError)));
}
