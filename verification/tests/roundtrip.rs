//! The color-space adapter's round trip: converting device colors to the
//! comparison space and back returns the originals within a small
//! tolerance. The adapter itself is an external collaborator; this checks
//! the contract the engine relies on.

use lcms2::{Intent, PixelFormat, Profile, Transform};

#[test]
fn adapter_round_trip() {
    let srgb = Profile::new_srgb();
    let xyz = Profile::new_xyz();
    let to_comparison: Transform<[f32; 3], [f32; 3]> = Transform::new(
        &srgb,
        PixelFormat::RGB_FLT,
        &xyz,
        PixelFormat::XYZ_FLT,
        Intent::AbsoluteColorimetric,
    )
    .unwrap();
    let from_comparison: Transform<[f32; 3], [f32; 3]> = Transform::new(
        &xyz,
        PixelFormat::XYZ_FLT,
        &srgb,
        PixelFormat::RGB_FLT,
        Intent::AbsoluteColorimetric,
    )
    .unwrap();

    let originals: Vec<[f32; 3]> = vec![
        [0.0, 0.0, 0.0],
        [1.0, 1.0, 1.0],
        [0.2, 0.4, 0.6],
        [0.5, 0.1, 0.9],
        [0.05, 0.95, 0.5],
    ];
    let mut colors = originals.clone();
    to_comparison.transform_in_place(&mut colors);
    from_comparison.transform_in_place(&mut colors);
    const TOLERANCE: f32 = 0.0005;
    for (orig, back) in originals.iter().zip(colors.iter()) {
        for c in 0..3 {
            assert!(
                (orig[c] - back[c]).abs() <= TOLERANCE,
                "round trip moved {} to {}",
                orig[c],
                back[c]
            );
        }
    }
}
