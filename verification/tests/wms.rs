use terramenta::imagery::ImagerySettings;
use terramenta::wms::{BboxText, WmsConfig, WmsFormat, WmsSettings, WmsVersion};

#[test]
fn get_map_url_carries_the_required_parameters() {
    let config = WmsConfig::gibs("Blue Marble", "BlueMarble_ShadedRelief_Bathymetry");
    let url = config.get_map_url("-90,-180,90,180");
    assert!(url.contains("SERVICE=WMS"));
    assert!(url.contains("REQUEST=GetMap"));
    assert!(url.contains("VERSION=1.3.0"));
    assert!(url.contains("CRS=EPSG%3A4326"));
    assert!(url.contains("FORMAT=image%2Fjpeg"));
    assert!(url.contains("WIDTH=256"));
}

#[test]
fn a_get_map_url_is_the_endpoint_and_every_parameter_in_order() {
    let mut config = WmsConfig::gibs("x", "L");
    config.endpoint = "https://example.org/wms?map=a".to_string();
    config.version = WmsVersion::V1_1_1;
    config.format = WmsFormat::Png;
    config.transparent = true;
    let config = config.with_parameter("time", "2026-09-10");
    assert_eq!(
        config.get_map_url("0,0,1,1"),
        "https://example.org/wms?map=a&SERVICE=WMS&VERSION=1.1.1&REQUEST=GetMap&LAYERS=L&STYLES=\
         &SRS=EPSG%3A4326&BBOX=0%2C0%2C1%2C1&WIDTH=256&HEIGHT=256&FORMAT=image%2Fpng\
         &TRANSPARENT=TRUE&TIME=2026-09-10"
    );
}

#[test]
fn a_parameter_replaces_one_of_the_same_name_whatever_its_case() {
    let config = WmsConfig::gibs("x", "L")
        .with_parameter("Time", "a")
        .with_parameter("STYLE", "b")
        .with_parameter("time", "c");
    let extra: Vec<(&str, &str)> = config
        .extra
        .iter()
        .map(|(name, value)| (name.as_str(), value.as_str()))
        .collect();
    assert_eq!(extra, vec![("STYLE", "b"), ("TIME", "c")]);
    assert_eq!(config.with_max_level(3).max_level, 3);
}

#[test]
fn versions_and_formats_name_themselves() {
    assert_eq!(WmsVersion::V1_3_0.as_str(), "1.3.0");
    assert_eq!(WmsVersion::V1_1_1.crs_parameter(), "SRS");
    assert_eq!(WmsFormat::Jpeg.mime(), "image/jpeg");
    assert_eq!(WmsFormat::Png.extension(), "png");
}

#[test]
fn wms_settings_read_the_active_preset() {
    let presets = vec![
        WmsConfig::gibs("Blue Marble", "A"),
        WmsConfig::gibs("Night", "B").with_max_level(6),
    ];
    let mut settings: WmsSettings = ImagerySettings::new(presets, WmsConfig::gibs("none", ""), true);
    assert_eq!(settings.label(), "Blue Marble");
    settings.cycle_preset();
    assert_eq!(settings.label(), "Night");
    assert_eq!(settings.max_level(), 6);
    assert_eq!(settings.tile_extension(), "jpg");
    assert_eq!(settings.generation(), 1);
}

#[test]
fn the_startup_presets_are_the_gibs_layers() {
    let presets = terramenta::wms::imagery_layers();
    assert_eq!(presets.len(), 4);
    assert_eq!(presets[1].label, "MODIS Terra · true colour");
    assert_eq!(presets[1].extra, vec![("TIME".to_string(), "2026-09-10".to_string())]);
    assert_eq!(presets[3].max_level, 6);
}

#[test]
fn version_1_3_0_orders_the_bounding_box_latitude_first() {
    let bounds = BboxText {
        lat_min: "-90".to_string(),
        lat_max: "0".to_string(),
        lon_min: "-180".to_string(),
        lon_max: "-90".to_string(),
    };
    assert_eq!(WmsVersion::V1_3_0.format_bbox(&bounds), "-90,-180,0,-90");
    assert_eq!(WmsVersion::V1_1_1.format_bbox(&bounds), "-180,-90,-90,0");
}

#[test]
fn the_presets_are_described_in_order() {
    let presets = terramenta::wms::imagery_layers();
    let layers = terramenta::wms::describe_layers(&presets);
    assert_eq!(layers.len(), 4);
    assert_eq!(layers[1].index, 1);
    assert_eq!(layers[1].label, "MODIS Terra · true colour");
    assert_eq!(layers[1].protocol, "WMS");
    assert_eq!(layers[1].tile_size, 256);
    assert_eq!(layers[1].format, "jpg");
    assert_eq!(layers[3].max_level, 6);
}
