use quickrandr::{orientation_from_word, parse_xrandr, ConfigAndXrandr, Geometry, Orientation, ParseError};

const ACER: [&str; 16] = [
    "00ffffffffffff000472eb022b2b3034",
    "2b17010380331d78ea2b05a35752a128",
    "0e5054b30c10714f818081009500d1c0",
    "010101010101023a801871382d40582c",
    "4500fd1e1100001e000000fd00374b1e",
    "5012000a202020202020000000fc0047",
    "323336484c0a202020202020000000ff",
    "004c564e4545303035323438320a0152",
    "020314f249010204111305149f906503",
    "0c001000023a801871382d40582c4500",
    "fd1e1100001e00000000000000000000",
    "00000000000000000000000000000000",
    "00000000000000000000000000000000",
    "00000000000000000000000000000000",
    "00000000000000000000000000000000",
    "000000000000000000000000000000b8",
];

const SAMSUNG: [&str; 16] = [
    "00ffffffffffff004c2d540232325044",
    "1b1101030e2f1e782ad515a455499a27",
    "145054bfef80b30081808140714f0101",
    "01010101010121399030621a274068b0",
    "3600da281100001c000000fd00384b1e",
    "5111000a202020202020000000fc0053",
    "796e634d61737465720a2020000000ff",
    "00485333503730313130350a202000da",
    "00000000000000000000000000000000",
    "00000000000000000000000000000000",
    "00000000000000000000000000000000",
    "00000000000000000000000000000000",
    "00000000000000000000000000000000",
    "00000000000000000000000000000000",
    "00000000000000000000000000000000",
    "00000000000000000000000000000000",
];

/// A panel whose block holds no product name.
const PANEL: [&str; 16] = [
    "00ffffffffffff004d10491400000000",
    "20190104a51d11780ede50a3544c9926",
    "0f505400000001010101010101010101",
    "0101010101011a3680a070381f403020",
    "350026a5100000180000001000000000",
    "00000000000000000000000000fe0044",
    "4a435036804c513133334d3100000000",
    "0002410328001200000b010a20200066",
    "00000000000000000000000000000000",
    "00000000000000000000000000000000",
    "00000000000000000000000000000000",
    "00000000000000000000000000000000",
    "00000000000000000000000000000000",
    "00000000000000000000000000000000",
    "00000000000000000000000000000000",
    "00000000000000000000000000000000",
];

const SCREEN: &str = "Screen 0: minimum 8 x 8, current 3000 x 1920, maximum 32767 x 32767\n";
const MODES: &str = " (normal left inverted right x axis y axis)";

fn edid_lines(lines: &[&str]) -> String {
    let mut out = String::from("\tEDID: \n");
    for line in lines {
        out.push_str("\t\t");
        out.push_str(line);
        out.push('\n');
    }
    out
}

fn hex_of(lines: &[&str]) -> String {
    lines.concat()
}

fn port(header: &str, edid: &[&str]) -> String {
    let mut out = String::from(header);
    out.push('\n');
    out.push_str("\tBroadcast RGB: Automatic \n");
    out.push_str("\t\tsupported: Automatic, Full, Limited 16:235\n");
    out.push_str(&edid_lines(edid));
    out.push_str("\tnon-desktop: 0 \n");
    out.push_str("\t\trange: (0, 1)\n");
    out.push_str("   1920x1080     60.00*+  50.00  \n");
    out
}

fn unplugged(label: &str) -> String {
    format!("{} disconnected{}\n\tnon-desktop: 0 \n", label, MODES)
}

fn desk() -> String {
    let mut report = String::from(SCREEN);
    report.push_str(&port(
        &format!("HDMI-1 connected primary 1920x1080+0+0{} 509mm x 286mm", MODES),
        &ACER,
    ));
    report.push_str(&unplugged("HDMI-2"));
    report.push_str(&port(
        &format!("DP-1 connected 1080x1920+1920+0 left{} 474mm x 296mm", MODES),
        &SAMSUNG,
    ));
    report.push_str(&unplugged("VIRTUAL1"));
    report
}

#[test]
fn reads_outputs_and_names() {
    let (outputs, names) = parse_xrandr(&desk()).unwrap();
    assert_eq!(names, vec!["DP-1".to_string(), "HDMI-1".to_string(), "HDMI-2".to_string()]);
    assert_eq!(outputs.len(), 2);

    let acer = outputs.get("G236HL").unwrap();
    assert_eq!(acer.connection_name, "HDMI-1");
    assert_eq!(acer.edid, hex_of(&ACER));
    assert_eq!(
        acer.geometry,
        Some(Geometry {
            width: 1920,
            height: 1080,
            x_offset: 0,
            y_offset: 0,
            orientation: Orientation::Normal,
            is_primary: true,
        })
    );

    let samsung = outputs.get("SyncMaster").unwrap();
    assert_eq!(samsung.connection_name, "DP-1");
    assert_eq!(samsung.edid, hex_of(&SAMSUNG));
    assert_eq!(
        samsung.geometry,
        Some(Geometry {
            width: 1080,
            height: 1920,
            x_offset: 1920,
            y_offset: 0,
            orientation: Orientation::Left,
            is_primary: false,
        })
    );
}

#[test]
fn outputs_keep_the_order_of_the_report() {
    let (outputs, _) = parse_xrandr(&desk()).unwrap();
    assert_eq!(outputs.name_at(0), "G236HL");
    assert_eq!(outputs.name_at(1), "SyncMaster");
}

#[test]
fn names_hold_unplugged_ports_and_no_virtual_port() {
    let (outputs, names) = parse_xrandr(&desk()).unwrap();
    assert!(names.contains(&"HDMI-2".to_string()));
    assert!(!names.contains(&"VIRTUAL1".to_string()));
    assert!(!outputs.contains_key("HDMI-2"));
    let mut sorted = names.clone();
    sorted.sort();
    assert_eq!(names, sorted);
}

#[test]
fn every_output_belongs_to_a_connected_port() {
    let mut report = desk();
    report.push_str(&port(&format!("VIRTUAL2 connected 800x600+0+0{}", MODES), &SAMSUNG));
    let (outputs, names) = parse_xrandr(&report).unwrap();
    assert_eq!(outputs.len(), 2);
    assert_eq!(outputs.get("SyncMaster").unwrap().connection_name, "DP-1");
    assert!(!names.contains(&"VIRTUAL2".to_string()));
}

#[test]
fn state_is_read_by_its_ending() {
    let report = format!("{}DVI-0 unknownconnected{}\n", SCREEN, MODES);
    let (outputs, names) = parse_xrandr(&report).unwrap();
    assert_eq!(names, vec!["DVI-0".to_string()]);
    assert!(outputs.is_empty());
}

#[test]
fn from_report_gives_the_same() {
    let live = ConfigAndXrandr::from_report(&desk()).unwrap();
    let (outputs, names) = parse_xrandr(&desk()).unwrap();
    assert_eq!(live.output_names, names);
    assert_eq!(live.connected_outputs.len(), outputs.len());
    assert_eq!(live.connected_outputs.get("G236HL"), outputs.get("G236HL"));
}

#[test]
fn connected_port_outside_the_desktop_has_no_geometry() {
    let report = format!("{}{}", SCREEN, port(&format!("DP-2 connected{}", MODES), &ACER));
    let (outputs, names) = parse_xrandr(&report).unwrap();
    assert_eq!(names, vec!["DP-2".to_string()]);
    let output = outputs.get("G236HL").unwrap();
    assert_eq!(output.connection_name, "DP-2");
    assert_eq!(output.geometry, None);
}

#[test]
fn rotation_follows_a_word_that_closes_a_group() {
    let header = format!("DP-1 connected 1080x1920+0+0 (0x45) right{}", MODES);
    let report = format!("{}{}", SCREEN, port(&header, &ACER));
    let (outputs, _) = parse_xrandr(&report).unwrap();
    let geometry = outputs.get("G236HL").unwrap().geometry.unwrap();
    assert_eq!(geometry.orientation, Orientation::Right);
    assert_eq!((geometry.width, geometry.height), (1080, 1920));
}

#[test]
fn inverted_rotation_is_read() {
    let header = format!("DP-1 connected 1920x1080+10+20 inverted{}", MODES);
    let report = format!("{}{}", SCREEN, port(&header, &ACER));
    let (outputs, _) = parse_xrandr(&report).unwrap();
    let geometry = outputs.get("G236HL").unwrap().geometry.unwrap();
    assert_eq!(geometry.orientation, Orientation::Inverted);
    assert_eq!((geometry.x_offset, geometry.y_offset), (10, 20));
}

#[test]
fn unknown_rotation_word_is_normal() {
    assert_eq!(orientation_from_word("garbage"), Orientation::Normal);
    assert_eq!(orientation_from_word(""), Orientation::Normal);
    assert_eq!(orientation_from_word("(normal"), Orientation::Normal);
    assert_eq!(orientation_from_word("Left"), Orientation::Normal);
    assert_eq!(orientation_from_word("normal"), Orientation::Normal);
    assert_eq!(orientation_from_word("left"), Orientation::Left);
    assert_eq!(orientation_from_word("inverted"), Orientation::Inverted);
    assert_eq!(orientation_from_word("right"), Orientation::Right);

    let header = "DP-1 connected 1920x1080+0+0 sideways more words";
    let report = format!("{}{}", SCREEN, port(header, &ACER));
    let (outputs, _) = parse_xrandr(&report).unwrap();
    assert_eq!(
        outputs.get("G236HL").unwrap().geometry.unwrap().orientation,
        Orientation::Normal
    );
}

#[test]
fn a_monitor_seen_twice_keeps_its_place_and_the_later_port() {
    let mut report = desk();
    report.push_str(&port(&format!("DP-3 connected 640x480+5+6{}", MODES), &ACER));
    let (outputs, names) = parse_xrandr(&report).unwrap();
    assert_eq!(outputs.len(), 2);
    assert_eq!(outputs.name_at(0), "G236HL");
    assert_eq!(outputs.get("G236HL").unwrap().connection_name, "DP-3");
    assert_eq!(names.len(), 4);
}

#[test]
fn carriage_returns_end_lines_too() {
    let report = desk().replace('\n', "\r\n");
    let (outputs, names) = parse_xrandr(&report).unwrap();
    assert_eq!(names.len(), 3);
    assert_eq!(outputs.get("SyncMaster").unwrap().edid, hex_of(&SAMSUNG));
}

#[test]
fn fifteen_edid_lines_abort_the_parse() {
    let mut report = String::from(SCREEN);
    report.push_str(&port(&format!("HDMI-1 connected 1920x1080+0+0{}", MODES), &ACER[..15]));
    report.push_str(&unplugged("HDMI-2"));
    assert_eq!(parse_xrandr(&report).err(), Some(ParseError::EdidLength));
}

#[test]
fn edid_cut_off_by_the_end_aborts_the_parse() {
    let report = format!(
        "{}HDMI-1 connected 1920x1080+0+0{}\n{}",
        SCREEN,
        MODES,
        edid_lines(&ACER[..15])
    );
    assert_eq!(parse_xrandr(&report).err(), Some(ParseError::EdidLength));
    let whole = format!(
        "{}HDMI-1 connected 1920x1080+0+0{}\n{}",
        SCREEN,
        MODES,
        edid_lines(&ACER)
    );
    assert!(parse_xrandr(&whole).is_ok());
}

#[test]
fn report_without_ports_is_refused() {
    assert_eq!(parse_xrandr("").err(), Some(ParseError::NoOutputs));
    assert_eq!(parse_xrandr(SCREEN).err(), Some(ParseError::NoOutputs));
    assert_eq!(
        parse_xrandr("Screen 0: a\nScreen 1: b\n").err(),
        Some(ParseError::NoOutputs)
    );
}

#[test]
fn short_port_line_is_refused() {
    assert_eq!(parse_xrandr("HDMI-1\n").err(), Some(ParseError::MissingToken));
    assert_eq!(parse_xrandr("HDMI-1 connected\n").err(), Some(ParseError::MissingToken));
    assert_eq!(
        parse_xrandr("HDMI-1 connected primary\n").err(),
        Some(ParseError::MissingToken)
    );
    assert_eq!(
        parse_xrandr("HDMI-1 connected 1920x1080+0+0\n").err(),
        Some(ParseError::MissingToken)
    );
    assert_eq!(
        parse_xrandr("HDMI-1 connected 1920x1080+0+0 (0x45)\n").err(),
        Some(ParseError::MissingToken)
    );
    let blank = format!("{}\n{}", SCREEN, unplugged("HDMI-2"));
    assert_eq!(parse_xrandr(&blank).err(), Some(ParseError::MissingToken));
}

#[test]
fn malformed_geometry_is_refused() {
    for word in ["1920x1080", "1920x1080+0", "axb+c+d", "x1080+0+0", "1920x1080+0+-1", "1920x1080++0+0"] {
        let report = format!("HDMI-1 connected {} normal\n{}", word, edid_lines(&ACER));
        assert_eq!(parse_xrandr(&report).err(), Some(ParseError::BadGeometry), "{}", word);
    }
    let huge = format!(
        "HDMI-1 connected 99999999999999999999999999x1080+0+0 normal\n{}",
        edid_lines(&ACER)
    );
    assert_eq!(parse_xrandr(&huge).err(), Some(ParseError::BadGeometry));
}

#[test]
fn geometry_takes_its_first_four_numbers() {
    let report = format!("HDMI-1 connected 0012+34x56x78+9 normal\n{}", edid_lines(&ACER));
    let (outputs, _) = parse_xrandr(&report).unwrap();
    let geometry = outputs.get("G236HL").unwrap().geometry.unwrap();
    assert_eq!(
        (geometry.width, geometry.height, geometry.x_offset, geometry.y_offset),
        (12, 34, 56, 78)
    );
}

#[test]
fn missing_edid_marker_is_refused() {
    let header = format!("HDMI-1 connected 1920x1080+0+0{}\n", MODES);
    let at_end = format!("{}{}", SCREEN, header);
    assert_eq!(parse_xrandr(&at_end).err(), Some(ParseError::MissingEdid));
    let no_marker = format!("{}{}\tnon-desktop: 0 \n", SCREEN, header);
    assert_eq!(parse_xrandr(&no_marker).err(), Some(ParseError::MissingEdid));
    let next_port = format!("{}{}\tnon-desktop: 0 \n{}", SCREEN, header, unplugged("HDMI-2"));
    assert_eq!(parse_xrandr(&next_port).err(), Some(ParseError::MissingEdid));
}

#[test]
fn text_that_is_not_hexadecimal_is_refused() {
    let mut lines = ACER;
    lines[3] = "010101010101023a801871382d40582g";
    let report = format!("HDMI-1 connected 1920x1080+0+0 normal\n{}", edid_lines(&lines));
    assert_eq!(parse_xrandr(&report).err(), Some(ParseError::EdidHex));
}

#[test]
fn edid_of_wrong_length_is_refused() {
    let mut lines = ACER;
    lines[15] = "000000000000000000000000000000b";
    let report = format!("HDMI-1 connected 1920x1080+0+0 normal\n{}", edid_lines(&lines));
    assert_eq!(parse_xrandr(&report).err(), Some(ParseError::EdidLength));
}

#[test]
fn block_without_the_fixed_header_is_refused() {
    let mut lines = ACER;
    lines[0] = "01ffffffffffff000472eb022b2b3034";
    let report = format!("HDMI-1 connected 1920x1080+0+0 normal\n{}", edid_lines(&lines));
    assert_eq!(parse_xrandr(&report).err(), Some(ParseError::EdidDecode));
}

#[test]
fn block_without_product_name_is_refused() {
    let report = format!("eDP-1 connected 1920x1080+0+0 normal\n{}", edid_lines(&PANEL));
    assert_eq!(parse_xrandr(&report).err(), Some(ParseError::MissingProductName));
}

#[test]
fn upper_case_hexadecimal_is_kept_as_printed() {
    let upper: Vec<String> = ACER.iter().map(|l| l.to_uppercase()).collect();
    let lines: Vec<&str> = upper.iter().map(|l| l.as_str()).collect();
    let report = format!("HDMI-1 connected 1920x1080+0+0 normal\n{}", edid_lines(&lines));
    let (outputs, _) = parse_xrandr(&report).unwrap();
    assert_eq!(outputs.get("G236HL").unwrap().edid, hex_of(&ACER).to_uppercase());
}
