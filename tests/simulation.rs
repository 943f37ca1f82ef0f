use rumpus_cli::cli::{format_for_extension, infer_format, Cli, Commands, SimulationFormat};
use rumpus_cli::colormap::rgb_of_level;
use rumpus_cli::encode::{encode_grid, encode_png, encode_raster};
use rumpus_cli::error::SimulationError;
use rumpus_cli::ray_image::{check_geometry, pixel_coordinates, simulate, trace, AssemblyCollision, Ray, RayImage};

#[test]
fn colormap_low_end_is_blue() {
    assert_eq!(rgb_of_level(0), [0, 0, 255]);
}

#[test]
fn colormap_middle_level() {
    // floor((0 - (-90)) / 180 * 255) = 127
    assert_eq!(rgb_of_level(127), [124, 255, 131]);
}

#[test]
fn colormap_high_end_is_dark_red() {
    assert_eq!(rgb_of_level(255), [131, 0, 0]);
}

#[test]
fn colormap_blue_ramp_saturates_instead_of_wrapping() {
    assert_eq!(rgb_of_level(129), [132, 255, 123]);
    assert_eq!(rgb_of_level(200), [255, 95, 0]);
}

#[test]
fn colormap_is_deterministic() {
    for level in 0..=255u8 {
        assert_eq!(rgb_of_level(level), rgb_of_level(level));
    }
}

#[test]
fn pixel_coordinates_are_row_major() {
    let pixels = pixel_coordinates(2, 3);
    assert_eq!(pixels, vec![(0, 0), (0, 1), (0, 2), (1, 0), (1, 1), (1, 2)]);
}

#[test]
fn pixel_coordinates_of_empty_sensor() {
    assert!(pixel_coordinates(0, 4).is_empty());
    assert!(pixel_coordinates(4, 0).is_empty());
}

#[test]
fn trace_omits_pixels_without_observation() {
    let rays = trace(2, 2, vec![Some(10u8), None, Some(30u8), None]);
    let mut seen: Vec<(u16, u16, u8)> = rays.iter().map(|r| (r.row, r.col, r.aop)).collect();
    seen.sort();
    assert_eq!(seen, vec![(0, 0, 10), (1, 0, 30)]);
}

#[test]
fn assembly_rejects_two_rays_on_one_pixel() {
    let rays = vec![Ray::new(0, 1, 5u8), Ray::new(1, 1, 6u8), Ray::new(0, 1, 7u8)];
    let result = RayImage::from_rays(2, 2, rays);
    assert_eq!(result.err(), Some(AssemblyCollision { row: 0, col: 1 }));
}

#[test]
fn assembly_places_rays_and_leaves_gaps_absent() {
    let rays = vec![Ray::new(1, 2, 9u8), Ray::new(0, 0, 4u8)];
    let image = RayImage::from_rays(2, 3, rays).ok().unwrap();
    assert_eq!(image.rows(), 2);
    assert_eq!(image.cols(), 3);
    assert_eq!(image.cell_count(), 6);
    assert_eq!(image.get(1, 2).as_ref().map(|r| (r.row, r.col, r.aop)), Some((1, 2, 9)));
    assert_eq!(image.get(0, 0).as_ref().map(|r| r.aop), Some(4));
    assert!(image.get(0, 1).is_none());
    assert!(image.cell(5).is_some());
    assert!(image.cell(4).is_none());
}

#[test]
fn simulate_gives_one_cell_per_pixel_at_its_position() {
    let observations: Vec<Option<u8>> = (0..12u8).map(|i| if i % 3 == 0 { None } else { Some(i) }).collect();
    let image = simulate(3, 4, observations).ok().unwrap();
    assert_eq!(image.cell_count(), 12);
    for row in 0..3u16 {
        for col in 0..4u16 {
            let i = (row * 4 + col) as u8;
            match image.get(row, col) {
                Some(ray) => {
                    assert_eq!((ray.row, ray.col, ray.aop), (row, col, i));
                }
                None => assert_eq!(i % 3, 0),
            }
        }
    }
}

#[test]
fn scenario_two_by_two_raster() {
    // Level 127 is the normalized level of an angle of 0 degrees on [-90, 90].
    let image = simulate(2, 2, vec![Some(127u8), Some(127u8), Some(127u8), None]).ok().unwrap();
    let bytes = encode_raster(&image);
    assert_eq!(bytes, vec![124, 255, 131, 124, 255, 131, 124, 255, 131, 255, 255, 255]);
}

#[test]
fn scenario_two_by_two_grid() {
    let zero = || Some("0.00000".to_string());
    let image = simulate(2, 2, vec![zero(), zero(), zero(), None]).ok().unwrap();
    assert_eq!(encode_grid(&image), "0.00000 0.00000 \n0.00000   NaN \n");
}

#[test]
fn grid_pads_short_tokens_to_five_characters() {
    let image = simulate(1, 3, vec![Some("0".to_string()), Some("-12.5".to_string()), None]).ok().unwrap();
    assert_eq!(encode_grid(&image), "    0 -12.5   NaN \n");
}

#[test]
fn grid_of_empty_rows() {
    let image: RayImage<String> = simulate(2, 0, Vec::new()).ok().unwrap();
    assert_eq!(encode_grid(&image), "\n\n");
}

#[test]
fn png_output_is_a_png_file() {
    let image = simulate(2, 2, vec![Some(0u8), Some(255u8), None, Some(127u8)]).ok().unwrap();
    let bytes = encode_png(&image).ok().unwrap();
    assert_eq!(&bytes[0..8], &[137, 80, 78, 71, 13, 10, 26, 10]);
    assert!(bytes.len() > 8 + 12);
}

#[test]
fn format_inferred_from_png_extension() {
    assert_eq!(infer_format(None, "out.png"), Ok(SimulationFormat::Png));
}

#[test]
fn format_inferred_from_dat_extension() {
    assert_eq!(infer_format(None, "out.dat"), Ok(SimulationFormat::Dat));
}

#[test]
fn format_unsupported_extension_fails() {
    assert_eq!(infer_format(None, "out.bin"), Err(SimulationError::UnsupportedFormat));
    assert_eq!(infer_format(None, "out"), Err(SimulationError::UnsupportedFormat));
}

#[test]
fn explicit_format_takes_precedence() {
    assert_eq!(infer_format(Some(SimulationFormat::Dat), "out.png"), Ok(SimulationFormat::Dat));
    assert_eq!(infer_format(Some(SimulationFormat::Png), "out.bin"), Ok(SimulationFormat::Png));
}

#[test]
fn format_for_extension_by_word() {
    assert_eq!(format_for_extension(None, Some("png")), Ok(SimulationFormat::Png));
    assert_eq!(format_for_extension(None, Some("dat")), Ok(SimulationFormat::Dat));
    assert_eq!(format_for_extension(None, Some("pn")), Err(SimulationError::UnsupportedFormat));
    assert_eq!(format_for_extension(None, None), Err(SimulationError::UnsupportedFormat));
}

#[test]
fn cli_command_is_copied() {
    let cli = Cli::new(Commands::Simulate {
        params: Some("params.toml".to_string()),
        output: "out.png".to_string(),
        format: Some(SimulationFormat::Png),
    });
    match cli.command() {
        Commands::Simulate { params, output, format } => {
            assert_eq!(params.as_deref(), Some("params.toml"));
            assert_eq!(output, "out.png");
            assert_eq!(format, Some(SimulationFormat::Png));
        }
        _ => panic!("unexpected command"),
    }
}

#[test]
fn error_messages_name_the_failure() {
    assert_eq!(SimulationError::ConfigRead.message(), "cannot read the parameter file");
    assert_eq!(SimulationError::ConfigParse.message(), "cannot parse the parameter file");
    assert_eq!(
        SimulationError::GeodeticValidation.message(),
        "latitude must lie between -90 and 90 degrees"
    );
    assert_eq!(SimulationError::UnsupportedFormat.message(), "unsupported output format");
    assert_eq!(
        SimulationError::GeometryContractViolation.message(),
        "pixel coordinate is not on the sensor plane"
    );
    assert_eq!(SimulationError::AssemblyCollision.message(), "two rays hit the same pixel");
    assert_eq!(SimulationError::OutputWrite.message(), "cannot encode or write the output");
}

#[test]
fn geometry_check_keeps_observations_in_order() {
    let traced = vec![Some(Some(1u8)), Some(None), Some(Some(3u8)), Some(Some(4u8))];
    assert_eq!(check_geometry(traced), Ok(vec![Some(1u8), None, Some(3u8), Some(4u8)]));
}

#[test]
fn geometry_rejection_fails_the_run() {
    let traced = vec![Some(Some(1u8)), None, Some(None)];
    assert_eq!(check_geometry(traced), Err(SimulationError::GeometryContractViolation));
}

#[test]
fn png_of_empty_grid_fails() {
    let image: RayImage<u8> = simulate(0, 3, Vec::new()).ok().unwrap();
    assert_eq!(encode_png(&image).err(), Some(SimulationError::OutputWrite));
}

#[test]
fn png_of_single_pixel_succeeds() {
    let image = simulate(1, 1, vec![None::<u8>]).ok().unwrap();
    assert!(encode_png(&image).is_ok());
}
