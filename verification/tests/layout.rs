use quickrandr::layout::{
    disable_arguments, enable_arguments, mode_text, ports_to_disable, ports_to_enable,
    position_text, rotation_word,
};
use quickrandr::{
    capture_layout, parse_xrandr, reconcile, ConnectedOutputs, Geometry, MonitorConfig,
    Orientation, Output,
};

const ACER: [&str; 16] = [
    "00ffffffffffff000472eb022b2b3034",
    "2b17010380331d78ea2b05a35752a128",
    "0e5054b30c10714f818081009500d1c0",
    "010101010101023a801871382d40582c",
    "4500fd1e1100001e000000fd00374b1e",
    "5012000a202020202020000000fc0047",
    "323336484c0a202020202020000000ff",
    "004c564e4545303035323438320a0152",
    "020314f249010204111305149f906503",
    "0c001000023a801871382d40582c4500",
    "fd1e1100001e00000000000000000000",
    "00000000000000000000000000000000",
    "00000000000000000000000000000000",
    "00000000000000000000000000000000",
    "00000000000000000000000000000000",
    "000000000000000000000000000000b8",
];

fn strings(words: &[&str]) -> Vec<String> {
    words.iter().map(|w| w.to_string()).collect()
}

fn geometry(width: usize, height: usize, x: usize, y: usize, orientation: Orientation) -> Geometry {
    Geometry { width, height, x_offset: x, y_offset: y, orientation, is_primary: false }
}

fn output(port: &str, geometry: Option<Geometry>) -> Output {
    Output { edid: String::new(), connection_name: port.to_string(), geometry }
}

fn entry(name: &str, mode: &str, position: &str, orientation: Orientation) -> MonitorConfig {
    MonitorConfig {
        display_name: name.to_string(),
        mode: mode.to_string(),
        position: position.to_string(),
        orientation,
        primary: false,
    }
}

fn fields(config: &MonitorConfig) -> (String, String, String, Orientation, bool) {
    (
        config.display_name.clone(),
        config.mode.clone(),
        config.position.clone(),
        config.orientation,
        config.primary,
    )
}

fn report_with(header: &str) -> String {
    let mut report = String::from("Screen 0: minimum 8 x 8, current 1920 x 1080\n");
    report.push_str(header);
    report.push_str("\n\tEDID: \n");
    for line in ACER {
        report.push_str("\t\t");
        report.push_str(line);
        report.push('\n');
    }
    report.push_str("HDMI-2 disconnected (normal left inverted right x axis y axis)\n");
    report
}

#[test]
fn capture_then_apply_asks_for_what_is_there() {
    let report = report_with(
        "HDMI-1 connected 1920x1080+0+0 (normal left inverted right x axis y axis) 509mm x 286mm",
    );
    let (outputs, _) = parse_xrandr(&report).unwrap();
    let mut layout = capture_layout(&outputs);
    assert_eq!(layout.len(), 1);
    assert_eq!(
        fields(&layout[0]),
        (
            "G236HL".to_string(),
            "1920x1080".to_string(),
            "0x0".to_string(),
            Orientation::Normal,
            false
        )
    );

    let (live, names) = parse_xrandr(&report).unwrap();
    let plan = reconcile(&mut layout, &live, &names);
    assert_eq!(
        plan.enable_arguments,
        strings(&["--output", "HDMI-1", "--mode", "1920x1080", "--pos", "0x0", "--rotate", "normal"])
    );
    assert_eq!(plan.ports_to_enable, strings(&["HDMI-1"]));
    assert_eq!(plan.ports_to_disable, strings(&["HDMI-2"]));
    assert!(!plan.ports_to_disable.contains(&"HDMI-1".to_string()));
    assert_eq!(plan.disable_arguments, strings(&["--output", "HDMI-2", "--off"]));
    assert!(layout.is_empty());
}

#[test]
fn quarter_turn_is_turned_back_on_capture() {
    let mut outputs = ConnectedOutputs::new();
    outputs.insert(
        "Panel".to_string(),
        output("DP-1", Some(geometry(1080, 1920, 0, 0, Orientation::Left))),
    );
    let layout = capture_layout(&outputs);
    assert_eq!(layout.len(), 1);
    assert_eq!(layout[0].mode, "1920x1080");
    assert_eq!(layout[0].orientation, Orientation::Left);
}

#[test]
fn mode_swaps_for_quarter_turns_only() {
    assert_eq!(mode_text(&geometry(1080, 1920, 0, 0, Orientation::Left)), "1920x1080");
    assert_eq!(mode_text(&geometry(1080, 1920, 0, 0, Orientation::Right)), "1920x1080");
    assert_eq!(mode_text(&geometry(1920, 1080, 0, 0, Orientation::Normal)), "1920x1080");
    assert_eq!(mode_text(&geometry(1920, 1080, 0, 0, Orientation::Inverted)), "1920x1080");
    assert_eq!(mode_text(&geometry(0, 7, 0, 0, Orientation::Normal)), "0x7");
}

#[test]
fn position_is_never_swapped() {
    assert_eq!(position_text(&geometry(1080, 1920, 1920, 0, Orientation::Left)), "1920x0");
    assert_eq!(position_text(&geometry(10, 20, 3, 4005, Orientation::Normal)), "3x4005");
    let largest = usize::MAX;
    assert_eq!(
        position_text(&geometry(1, 1, largest, 0, Orientation::Normal)),
        format!("{}x0", largest)
    );
}

#[test]
fn capture_copies_rotation_and_primary() {
    let mut outputs = ConnectedOutputs::new();
    let mut placed = geometry(800, 600, 100, 200, Orientation::Inverted);
    placed.is_primary = true;
    outputs.insert("First".to_string(), output("DP-1", Some(placed)));
    outputs.insert("Second".to_string(), output("DP-2", None));
    outputs.insert(
        "Third".to_string(),
        output("DP-3", Some(geometry(600, 800, 900, 0, Orientation::Right))),
    );
    let layout = capture_layout(&outputs);
    assert_eq!(layout.len(), 2);
    assert_eq!(
        fields(&layout[0]),
        ("First".to_string(), "800x600".to_string(), "100x200".to_string(), Orientation::Inverted, true)
    );
    assert_eq!(
        fields(&layout[1]),
        ("Third".to_string(), "800x600".to_string(), "900x0".to_string(), Orientation::Right, false)
    );
}

#[test]
fn every_other_port_is_switched_off() {
    let names = strings(&["HDMI-1", "HDMI-2", "DP-1"]);
    let layout = vec![entry("Desk", "1920x1080", "0x0", Orientation::Normal)];

    let mut unplugged = ConnectedOutputs::new();
    unplugged.insert(
        "Desk".to_string(),
        output("HDMI-1", Some(geometry(1920, 1080, 0, 0, Orientation::Normal))),
    );
    let enabled = ports_to_enable(&layout, &unplugged);
    assert_eq!(enabled, strings(&["HDMI-1"]));
    assert_eq!(ports_to_disable(&names, &enabled), strings(&["HDMI-2", "DP-1"]));

    let mut plugged = ConnectedOutputs::new();
    plugged.insert(
        "Desk".to_string(),
        output("HDMI-1", Some(geometry(1920, 1080, 0, 0, Orientation::Normal))),
    );
    plugged.insert(
        "Beamer".to_string(),
        output("DP-1", Some(geometry(1024, 768, 1920, 0, Orientation::Normal))),
    );
    let enabled = ports_to_enable(&layout, &plugged);
    assert_eq!(enabled, strings(&["HDMI-1"]));
    assert_eq!(ports_to_disable(&names, &enabled), strings(&["HDMI-2", "DP-1"]));
}

#[test]
fn words_that_switch_off() {
    assert_eq!(disable_arguments(&Vec::new()), Vec::<String>::new());
    assert_eq!(
        disable_arguments(&strings(&["HDMI-2", "DP-1"])),
        strings(&["--output", "HDMI-2", "--off", "--output", "DP-1", "--off"])
    );
}

#[test]
fn words_that_place_follow_the_live_outputs() {
    let mut outputs = ConnectedOutputs::new();
    outputs.insert("Right".to_string(), output("DP-2", None));
    outputs.insert("Other".to_string(), output("DP-9", None));
    outputs.insert("Left".to_string(), output("DP-1", None));
    let mut layout = vec![
        entry("Left", "1280x1024", "0x0", Orientation::Left),
        entry("Gone", "640x480", "0x0", Orientation::Normal),
        entry("Right", "1920x1080", "1024x0", Orientation::Inverted),
        entry("Left", "800x600", "5x5", Orientation::Right),
    ];
    let words = enable_arguments(&mut layout, &outputs);
    assert_eq!(
        words,
        strings(&[
            "--output", "DP-2", "--mode", "1920x1080", "--pos", "1024x0", "--rotate", "inverted",
            "--output", "DP-1", "--mode", "1280x1024", "--pos", "0x0", "--rotate", "left",
        ])
    );
    assert_eq!(layout.len(), 2);
    assert_eq!(fields(&layout[0]).0, "Gone");
    assert_eq!(
        fields(&layout[1]),
        ("Left".to_string(), "800x600".to_string(), "5x5".to_string(), Orientation::Right, false)
    );
}

#[test]
fn layout_for_absent_monitors_enables_nothing() {
    let mut outputs = ConnectedOutputs::new();
    outputs.insert("Here".to_string(), output("DP-1", None));
    let mut layout = vec![entry("Gone", "640x480", "0x0", Orientation::Normal)];
    let names = strings(&["DP-1", "DP-2"]);
    let plan = reconcile(&mut layout, &outputs, &names);
    assert!(plan.ports_to_enable.is_empty());
    assert!(plan.enable_arguments.is_empty());
    assert_eq!(plan.ports_to_disable, names);
    assert_eq!(
        plan.disable_arguments,
        strings(&["--output", "DP-1", "--off", "--output", "DP-2", "--off"])
    );
    assert_eq!(layout.len(), 1);
}

#[test]
fn rotation_words() {
    assert_eq!(rotation_word(Orientation::Normal), "normal");
    assert_eq!(rotation_word(Orientation::Left), "left");
    assert_eq!(rotation_word(Orientation::Inverted), "inverted");
    assert_eq!(rotation_word(Orientation::Right), "right");
}
