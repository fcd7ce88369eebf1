//! Layouts: the capture of the live state as a desired layout, and the
//! reconciliation of a desired layout with the live state into the words
//! handed to the display tool.

use crate::decimal::{decimal_digits, push_decimal};
use crate::model::{
    configs_view, names_view, Geometry, MonitorConfig, MonitorConfigView, Orientation,
    OutputNames,
};
use crate::outputs::{distinct_names, has_name, lemma_find_name, ConnectedOutputs, Entries};
use vstd::prelude::*;

verus! {

/// The mode of an output: its extents before rotation, as `WIDTHxHEIGHT`.
/// The geometry holds the extents after rotation, so a quarter turn swaps
/// them back.
pub open spec fn mode_of(g: Geometry) -> Seq<char> {
    match g.orientation {
        Orientation::Normal | Orientation::Inverted => decimal_digits(g.width as nat) + seq!['x']
            + decimal_digits(g.height as nat),
        Orientation::Left | Orientation::Right => decimal_digits(g.height as nat) + seq!['x']
            + decimal_digits(g.width as nat),
    }
}

/// The position of an output: its offsets as `XxY`.
pub open spec fn position_of(g: Geometry) -> Seq<char> {
    decimal_digits(g.x_offset as nat) + seq!['x'] + decimal_digits(g.y_offset as nat)
}

/// The layout entry that keeps the placement `g` of the monitor `name`.
pub open spec fn captured_entry(name: Seq<char>, g: Geometry) -> MonitorConfigView {
    MonitorConfigView {
        display_name: name,
        mode: mode_of(g),
        position: position_of(g),
        orientation: g.orientation,
        primary: g.is_primary,
    }
}

/// The layout that keeps the live state: one entry for each output that is
/// part of the desktop, in the order of the outputs. An output outside the
/// desktop leaves no entry.
pub open spec fn captured(entries: Entries) -> Seq<MonitorConfigView>
    decreases entries.len(),
{
    if entries.len() == 0 {
        Seq::empty()
    } else {
        let before = captured(entries.drop_last());
        match entries.last().1.geometry {
            Some(g) => before.push(captured_entry(entries.last().0, g)),
            None => before,
        }
    }
}

/// Two numbers with an `x` between them.
fn pair_text(first: usize, second: usize) -> (r: String)
    ensures
        r@ == decimal_digits(first as nat) + seq!['x'] + decimal_digits(second as nat),
{
    let mut out = String::new();
    push_decimal(&mut out, first);
    proof {
        reveal_strlit("x");
        assert("x"@ =~= seq!['x']);
    }
    out.append("x");
    push_decimal(&mut out, second);
    assert(out@ =~= decimal_digits(first as nat) + seq!['x'] + decimal_digits(second as nat));
    out
}

/// The mode of an output, as [`mode_of`] states it.
pub fn mode_text(g: &Geometry) -> (r: String)
    ensures
        r@ == mode_of(*g),
{
    match g.orientation {
        Orientation::Normal | Orientation::Inverted => pair_text(g.width, g.height),
        Orientation::Left | Orientation::Right => pair_text(g.height, g.width),
    }
}

/// The position of an output, as [`position_of`] states it.
pub fn position_text(g: &Geometry) -> (r: String)
    ensures
        r@ == position_of(*g),
{
    pair_text(g.x_offset, g.y_offset)
}

/// Captures the live outputs as a layout.
pub fn capture_layout(outputs: &ConnectedOutputs) -> (layout: Vec<MonitorConfig>)
    ensures
        configs_view(layout@) == captured(outputs@),
{
    let mut layout: Vec<MonitorConfig> = Vec::new();
    let count = outputs.len();
    let mut i: usize = 0;
    assert(configs_view(layout@) =~= captured(outputs@.take(0)));
    while i < count
        invariant
            i <= count,
            count == outputs@.len(),
            configs_view(layout@) == captured(outputs@.take(i as int)),
        decreases count - i,
    {
        let ghost before = configs_view(layout@);
        assert(outputs@.take(i + 1).drop_last() =~= outputs@.take(i as int));
        assert(outputs@.take(i + 1).last() == outputs@[i as int]);
        match outputs.output_at(i).geometry {
            Some(g) => {
                let entry = MonitorConfig {
                    display_name: outputs.name_at(i).clone(),
                    mode: mode_text(&g),
                    position: position_text(&g),
                    orientation: g.orientation,
                    primary: g.is_primary,
                };
                layout.push(entry);
                assert(configs_view(layout@) =~= before.push(
                    captured_entry(outputs@[i as int].0, g),
                ));
            },
            None => {},
        }
        i += 1;
    }
    assert(outputs@.take(i as int) =~= outputs@);
    layout
}

/// The position of the first entry of a layout that names the monitor
/// `name`, or the number of entries where none does.
pub open spec fn find_config(configs: Seq<MonitorConfigView>, name: Seq<char>) -> int
    decreases configs.len(),
{
    if configs.len() == 0 || configs[0].display_name == name {
        0
    } else {
        1 + find_config(configs.skip(1), name)
    }
}

/// Some entry of the layout names the monitor `name`.
pub open spec fn names_monitor(configs: Seq<MonitorConfigView>, name: Seq<char>) -> bool {
    find_config(configs, name) < configs.len()
}

/// The position found lies within the layout or just behind it; the
/// entry there, if any, names the monitor, and no entry before it does.
pub proof fn lemma_find_config(configs: Seq<MonitorConfigView>, name: Seq<char>)
    ensures
        0 <= find_config(configs, name) <= configs.len(),
        names_monitor(configs, name) ==> configs[find_config(configs, name)].display_name == name,
        forall|k: int|
            0 <= k < find_config(configs, name) ==> (#[trigger] configs[k]).display_name != name,
    decreases configs.len(),
{
    if configs.len() == 0 || configs[0].display_name == name {
    } else {
        lemma_find_config(configs.skip(1), name);
        assert forall|k: int| 0 <= k < find_config(configs, name) implies (
        #[trigger] configs[k]).display_name != name by {
            if k > 0 {
                assert(configs.skip(1)[k - 1] == configs[k]);
            }
        }
    }
}

/// The position of the first entry that names the monitor `name`.
pub fn config_position(configs: &Vec<MonitorConfig>, name: &String) -> (r: Option<usize>)
    ensures
        match r {
            Some(i) => names_monitor(configs_view(configs@), name@) && i == find_config(
                configs_view(configs@),
                name@,
            ),
            None => !names_monitor(configs_view(configs@), name@),
        },
{
    let ghost all = configs_view(configs@);
    let mut i: usize = 0;
    assert(all.skip(0) =~= all);
    while i < configs.len()
        invariant
            i <= configs@.len(),
            all == configs_view(configs@),
            find_config(all, name@) == i + find_config(all.skip(i as int), name@),
        decreases configs@.len() - i,
    {
        assert(all.skip(i as int)[0] == configs@[i as int]@);
        if configs[i].display_name == *name {
            return Some(i);
        }
        assert(all.skip(i as int).skip(1) =~= all.skip(i + 1));
        i += 1;
    }
    None
}

/// The ports to enable: the labels of the live outputs whose monitor the
/// layout names, in the order of the outputs.
pub open spec fn enabled_ports(configs: Seq<MonitorConfigView>, entries: Entries) -> Seq<
    Seq<char>,
>
    decreases entries.len(),
{
    if entries.len() == 0 {
        Seq::empty()
    } else {
        let before = enabled_ports(configs, entries.drop_last());
        if names_monitor(configs, entries.last().0) {
            before.push(entries.last().1.connection_name)
        } else {
            before
        }
    }
}

/// The ports to enable for a layout.
pub fn ports_to_enable(configs: &Vec<MonitorConfig>, outputs: &ConnectedOutputs) -> (ports: Vec<
    String,
>)
    ensures
        names_view(ports@) == enabled_ports(configs_view(configs@), outputs@),
{
    let mut ports: Vec<String> = Vec::new();
    let count = outputs.len();
    let mut i: usize = 0;
    assert(names_view(ports@) =~= enabled_ports(configs_view(configs@), outputs@.take(0)));
    while i < count
        invariant
            i <= count,
            count == outputs@.len(),
            names_view(ports@) == enabled_ports(configs_view(configs@), outputs@.take(i as int)),
        decreases count - i,
    {
        let ghost before = names_view(ports@);
        assert(outputs@.take(i + 1).drop_last() =~= outputs@.take(i as int));
        assert(outputs@.take(i + 1).last() == outputs@[i as int]);
        if config_position(configs, outputs.name_at(i)).is_some() {
            ports.push(outputs.output_at(i).connection_name.clone());
            assert(names_view(ports@) =~= before.push(outputs@[i as int].1.connection_name));
        }
        i += 1;
    }
    assert(outputs@.take(i as int) =~= outputs@);
    ports
}

/// The ports to disable: the names of all ports but those to enable, in
/// the order of the names.
pub open spec fn disabled_ports(names: Seq<Seq<char>>, enabled: Seq<Seq<char>>) -> Seq<Seq<char>>
    decreases names.len(),
{
    if names.len() == 0 {
        Seq::empty()
    } else {
        let before = disabled_ports(names.drop_last(), enabled);
        if enabled.contains(names.last()) {
            before
        } else {
            before.push(names.last())
        }
    }
}

/// A port is switched off exactly if the subsystem names it and it is not
/// to be enabled, whatever its state.
pub proof fn lemma_disabled_ports(names: Seq<Seq<char>>, enabled: Seq<Seq<char>>, port: Seq<char>)
    ensures
        disabled_ports(names, enabled).contains(port) <==> names.contains(port)
            && !enabled.contains(port),
    decreases names.len(),
{
    if names.len() > 0 {
        let before = disabled_ports(names.drop_last(), enabled);
        let after = disabled_ports(names, enabled);
        lemma_disabled_ports(names.drop_last(), enabled, port);
        if names.contains(port) {
            let at = choose|at: int| 0 <= at < names.len() && names[at] == port;
            if at < names.len() - 1 {
                assert(names.drop_last()[at] == port);
            }
        }
        if names.drop_last().contains(port) {
            let at = choose|at: int| 0 <= at < names.len() - 1 && names.drop_last()[at] == port;
            assert(names[at] == port);
        }
        assert(names[names.len() - 1] == names.last());
        if enabled.contains(names.last()) {
        } else {
            if before.contains(port) {
                let at = choose|at: int| 0 <= at < before.len() && before[at] == port;
                assert(after[at] == port);
            }
            assert(after[after.len() - 1] == names.last());
            if after.contains(port) {
                let at = choose|at: int| 0 <= at < after.len() && after[at] == port;
                if at < before.len() {
                    assert(before[at] == port);
                }
            }
        }
    }
}

/// Whether `name` is among `list`.
pub fn contains_name(list: &Vec<String>, name: &String) -> (r: bool)
    ensures
        r == names_view(list@).contains(name@),
{
    let mut i: usize = 0;
    while i < list.len()
        invariant
            i <= list@.len(),
            forall|k: int| 0 <= k < i ==> names_view(list@)[k] != name@,
        decreases list@.len() - i,
    {
        if list[i] == *name {
            assert(names_view(list@)[i as int] == name@);
            return true;
        }
        i += 1;
    }
    false
}

/// The ports to disable, given all names and the ports to enable.
pub fn ports_to_disable(names: &OutputNames, enabled: &Vec<String>) -> (ports: Vec<String>)
    ensures
        names_view(ports@) == disabled_ports(names_view(names@), names_view(enabled@)),
{
    let mut ports: Vec<String> = Vec::new();
    let mut i: usize = 0;
    let ghost all = names_view(names@);
    assert(names_view(ports@) =~= disabled_ports(all.take(0), names_view(enabled@)));
    while i < names.len()
        invariant
            i <= names@.len(),
            all == names_view(names@),
            names_view(ports@) == disabled_ports(all.take(i as int), names_view(enabled@)),
        decreases names@.len() - i,
    {
        let ghost before = names_view(ports@);
        assert(all.take(i + 1).drop_last() =~= all.take(i as int));
        assert(all.take(i + 1).last() == names@[i as int]@);
        if !contains_name(enabled, &names[i]) {
            ports.push(names[i].clone());
            assert(names_view(ports@) =~= before.push(names@[i as int]@));
        }
        i += 1;
    }
    assert(all.take(i as int) =~= all);
    ports
}

/// The word by which the display tool knows a rotation.
pub open spec fn orientation_word(orientation: Orientation) -> Seq<char> {
    match orientation {
        Orientation::Normal => "normal"@,
        Orientation::Left => "left"@,
        Orientation::Inverted => "inverted"@,
        Orientation::Right => "right"@,
    }
}

/// The word of a rotation reads back as that rotation.
pub proof fn lemma_orientation_word_reads_back(orientation: Orientation)
    ensures
        crate::report::orientation_of(orientation_word(orientation)) == orientation,
{
    reveal_strlit("normal");
    reveal_strlit("left");
    reveal_strlit("inverted");
    reveal_strlit("right");
    assert("normal"@.len() == 6 && "left"@.len() == 4 && "inverted"@.len() == 8 && "right"@.len()
        == 5);
}

/// The word by which the display tool knows a rotation.
pub fn rotation_word(orientation: Orientation) -> (word: &'static str)
    ensures
        word@ == orientation_word(orientation),
{
    match orientation {
        Orientation::Normal => "normal",
        Orientation::Left => "left",
        Orientation::Inverted => "inverted",
        Orientation::Right => "right",
    }
}

/// The words that switch the given ports off: for each port, in order,
/// `--output`, the port and `--off`.
pub open spec fn disable_words(ports: Seq<Seq<char>>) -> Seq<Seq<char>>
    decreases ports.len(),
{
    if ports.len() == 0 {
        Seq::empty()
    } else {
        disable_words(ports.drop_last()) + seq!["--output"@, ports.last(), "--off"@]
    }
}

/// The words that place one output: they name the port, then the mode,
/// the position and the rotation of the layout entry.
pub open spec fn placing_words(port: Seq<char>, config: MonitorConfigView) -> Seq<Seq<char>> {
    seq![
        "--output"@,
        port,
        "--mode"@,
        config.mode,
        "--pos"@,
        config.position,
        "--rotate"@,
        orientation_word(config.orientation),
    ]
}

/// The words that enable a layout: for each live output whose monitor the
/// layout names, in the order of the outputs, the words that place it as
/// the first entry of that name says.
pub open spec fn enable_words(configs: Seq<MonitorConfigView>, entries: Entries) -> Seq<Seq<char>>
    decreases entries.len(),
{
    if entries.len() == 0 {
        Seq::empty()
    } else {
        let before = enable_words(configs, entries.drop_last());
        let name = entries.last().0;
        if names_monitor(configs, name) {
            before + placing_words(
                entries.last().1.connection_name,
                configs[find_config(configs, name)],
            )
        } else {
            before
        }
    }
}

/// The entry at `at` is the one that places a live output: its monitor is
/// live, and no earlier entry names that monitor.
pub open spec fn is_matched(configs: Seq<MonitorConfigView>, entries: Entries, at: int) -> bool {
    &&& has_name(entries, configs[at].display_name)
    &&& find_config(configs, configs[at].display_name) == at
}

/// Of the first `count` entries of a layout, those that place no live
/// output.
pub open spec fn unmatched_among(
    configs: Seq<MonitorConfigView>,
    entries: Entries,
    count: nat,
) -> Seq<MonitorConfigView>
    decreases count,
{
    if count == 0 {
        Seq::empty()
    } else {
        let before = unmatched_among(configs, entries, (count - 1) as nat);
        if is_matched(configs, entries, count - 1) {
            before
        } else {
            before.push(configs[count - 1])
        }
    }
}

/// The entries of a layout that place no live output, in their order.
pub open spec fn unmatched(configs: Seq<MonitorConfigView>, entries: Entries) -> Seq<
    MonitorConfigView,
> {
    unmatched_among(configs, entries, configs.len())
}

/// The words that switch the given ports off.
pub fn disable_arguments(ports: &Vec<String>) -> (words: Vec<String>)
    ensures
        names_view(words@) == disable_words(names_view(ports@)),
{
    let mut words: Vec<String> = Vec::new();
    let mut i: usize = 0;
    let ghost all = names_view(ports@);
    assert(names_view(words@) =~= disable_words(all.take(0)));
    while i < ports.len()
        invariant
            i <= ports@.len(),
            all == names_view(ports@),
            names_view(words@) == disable_words(all.take(i as int)),
        decreases ports@.len() - i,
    {
        let ghost before = names_view(words@);
        assert(all.take(i + 1).drop_last() =~= all.take(i as int));
        assert(all.take(i + 1).last() == ports@[i as int]@);
        words.push("--output".to_owned());
        words.push(ports[i].clone());
        words.push("--off".to_owned());
        assert(names_view(words@) =~= before + seq!["--output"@, ports@[i as int]@, "--off"@]);
        i += 1;
    }
    assert(all.take(i as int) =~= all);
    words
}

/// The words that enable a layout. Each entry that places a live output is
/// used up and leaves the layout; the entries whose monitor is not live,
/// and further entries for a monitor already placed, stay.
pub fn enable_arguments(configs: &mut Vec<MonitorConfig>, outputs: &ConnectedOutputs) -> (words:
    Vec<String>)
    ensures
        names_view(words@) == enable_words(configs_view(old(configs)@), outputs@),
        configs_view(final(configs)@) == unmatched(configs_view(old(configs)@), outputs@),
{
    let ghost all = configs_view(configs@);
    let mut words: Vec<String> = Vec::new();
    let count = outputs.len();
    let mut i: usize = 0;
    assert(names_view(words@) =~= enable_words(all, outputs@.take(0)));
    while i < count
        invariant
            i <= count,
            count == outputs@.len(),
            all == configs_view(configs@),
            names_view(words@) == enable_words(all, outputs@.take(i as int)),
        decreases count - i,
    {
        let ghost before = names_view(words@);
        assert(outputs@.take(i + 1).drop_last() =~= outputs@.take(i as int));
        assert(outputs@.take(i + 1).last() == outputs@[i as int]);
        match config_position(configs, outputs.name_at(i)) {
            Some(at) => {
                let config = &configs[at];
                assert(config@ == all[at as int]);
                words.push("--output".to_owned());
                words.push(outputs.output_at(i).connection_name.clone());
                words.push("--mode".to_owned());
                words.push(config.mode.clone());
                words.push("--pos".to_owned());
                words.push(config.position.clone());
                words.push("--rotate".to_owned());
                words.push(rotation_word(config.orientation).to_owned());
                assert(names_view(words@) =~= before + placing_words(
                    outputs@[i as int].1.connection_name,
                    all[at as int],
                ));
            },
            None => {},
        }
        i += 1;
    }
    assert(outputs@.take(i as int) =~= outputs@);
    let mut kept: Vec<MonitorConfig> = Vec::new();
    let mut j: usize = 0;
    assert(configs_view(kept@) =~= unmatched_among(all, outputs@, 0));
    while j < configs.len()
        invariant
            j <= configs@.len(),
            all == configs_view(configs@),
            configs_view(kept@) == unmatched_among(all, outputs@, j as nat),
        decreases configs@.len() - j,
    {
        let ghost before = configs_view(kept@);
        let config = &configs[j];
        assert(config@ == all[j as int]);
        let live = outputs.contains_key(config.display_name.as_str());
        let first = match config_position(configs, &config.display_name) {
            Some(at) => at == j,
            None => false,
        };
        if !(live && first) {
            kept.push(config.clone());
            assert(configs_view(kept@) =~= before.push(all[j as int]));
        }
        j += 1;
    }
    *configs = kept;
    words
}

/// What is to be done to reach a layout. The display tool is called twice:
/// first with the words that switch ports off, which frees what the layout
/// needs, then with the words that place the layout's outputs.
pub struct Reconciliation {
    pub ports_to_enable: Vec<String>,
    pub ports_to_disable: Vec<String>,
    /// The words of the first call.
    pub disable_arguments: Vec<String>,
    /// The words of the second call.
    pub enable_arguments: Vec<String>,
}

/// Reconciles a layout with the live state: the live outputs whose monitor
/// the layout names are enabled and placed as the layout says, every other
/// port that the subsystem names is switched off. An entry of the layout
/// whose monitor is not live is passed over. The entries that were used
/// leave the layout.
pub fn reconcile(
    configs: &mut Vec<MonitorConfig>,
    outputs: &ConnectedOutputs,
    names: &OutputNames,
) -> (plan: Reconciliation)
    ensures
        names_view(plan.ports_to_enable@) == enabled_ports(
            configs_view(old(configs)@),
            outputs@,
        ),
        names_view(plan.ports_to_disable@) == disabled_ports(
            names_view(names@),
            enabled_ports(configs_view(old(configs)@), outputs@),
        ),
        names_view(plan.disable_arguments@) == disable_words(
            disabled_ports(
                names_view(names@),
                enabled_ports(configs_view(old(configs)@), outputs@),
            ),
        ),
        names_view(plan.enable_arguments@) == enable_words(configs_view(old(configs)@), outputs@),
        configs_view(final(configs)@) == unmatched(configs_view(old(configs)@), outputs@),
{
    let ports_to_enable = ports_to_enable(configs, outputs);
    let ports_to_disable = ports_to_disable(names, &ports_to_enable);
    let disable_arguments = disable_arguments(&ports_to_disable);
    let enable_arguments = enable_arguments(configs, outputs);
    Reconciliation { ports_to_enable, ports_to_disable, disable_arguments, enable_arguments }
}

/// The ports of the outputs that are part of the desktop, in the order of
/// the outputs.
pub open spec fn desktop_ports(entries: Entries) -> Seq<Seq<char>>
    decreases entries.len(),
{
    if entries.len() == 0 {
        Seq::empty()
    } else {
        let before = desktop_ports(entries.drop_last());
        match entries.last().1.geometry {
            Some(g) => before.push(entries.last().1.connection_name),
            None => before,
        }
    }
}

/// The words that place every output of the desktop where it stands.
pub open spec fn standing_words(entries: Entries) -> Seq<Seq<char>>
    decreases entries.len(),
{
    if entries.len() == 0 {
        Seq::empty()
    } else {
        let before = standing_words(entries.drop_last());
        match entries.last().1.geometry {
            Some(g) => before + placing_words(
                entries.last().1.connection_name,
                captured_entry(entries.last().0, g),
            ),
            None => before,
        }
    }
}

/// Where the first entry that names a monitor stands once one more entry
/// is added to the layout.
proof fn lemma_find_config_push(
    configs: Seq<MonitorConfigView>,
    last: MonitorConfigView,
    name: Seq<char>,
)
    ensures
        find_config(configs.push(last), name) == if names_monitor(configs, name) {
            find_config(configs, name)
        } else if last.display_name == name {
            configs.len() as int
        } else {
            configs.len() as int + 1
        },
    decreases configs.len(),
{
    let longer = configs.push(last);
    if configs.len() == 0 {
        assert(longer[0] == last);
        assert(longer.skip(1) =~= Seq::<MonitorConfigView>::empty());
        assert(find_config(longer.skip(1), name) == 0);
    } else {
        assert(longer[0] == configs[0]);
        if configs[0].display_name != name {
            assert(longer.skip(1) =~= configs.skip(1).push(last));
            lemma_find_config_push(configs.skip(1), last, name);
            assert(find_config(longer, name) == 1 + find_config(longer.skip(1), name));
            assert(find_config(configs, name) == 1 + find_config(configs.skip(1), name));
        }
    }
}

/// Each entry of a captured layout comes from an output of the desktop
/// and has its monitor's name.
proof fn lemma_captured_source(entries: Entries, at: int)
    requires
        0 <= at < captured(entries).len(),
    ensures
        exists|k: int|
            0 <= k < entries.len() && (#[trigger] entries[k]).0 == captured(
                entries,
            )[at].display_name && entries[k].1.geometry.is_some(),
    decreases entries.len(),
{
    let before = captured(entries.drop_last());
    if at < before.len() {
        lemma_captured_source(entries.drop_last(), at);
        let k = choose|k: int|
            0 <= k < entries.drop_last().len() && (#[trigger] entries.drop_last()[k]).0
                == before[at].display_name && entries.drop_last()[k].1.geometry.is_some();
        assert(entries[k] == entries.drop_last()[k]);
    } else {
        assert(entries[entries.len() - 1] == entries.last());
    }
}

/// In a captured layout the monitor of an output of the desktop is named,
/// and the first entry that names it is the one captured from that output;
/// the monitor of an output outside the desktop is not named.
proof fn lemma_captured_lookup(entries: Entries, k: int)
    requires
        distinct_names(entries),
        0 <= k < entries.len(),
    ensures
        match entries[k].1.geometry {
            Some(g) => names_monitor(captured(entries), entries[k].0) && captured(
                entries,
            )[find_config(captured(entries), entries[k].0)] == captured_entry(entries[k].0, g),
            None => !names_monitor(captured(entries), entries[k].0),
        },
    decreases entries.len(),
{
    let shorter = entries.drop_last();
    let before = captured(shorter);
    let last = entries.last();
    let name = entries[k].0;
    assert(distinct_names(shorter)) by {
        assert forall|i: int, j: int| 0 <= i < j < shorter.len() implies (#[trigger] shorter[i]).0
            != (#[trigger] shorter[j]).0 by {
            assert(shorter[i] == entries[i] && shorter[j] == entries[j]);
        }
    }
    assert(entries[entries.len() - 1] == last);
    if k < entries.len() - 1 {
        lemma_captured_lookup(shorter, k);
        assert(shorter[k] == entries[k]);
        assert(last.0 != name);
        match last.1.geometry {
            Some(g) => {
                lemma_find_config_push(before, captured_entry(last.0, g), name);
                lemma_find_config(before, name);
            },
            None => {},
        }
    } else {
        // no earlier output has this monitor, so no earlier entry names it
        lemma_find_config(before, name);
        if names_monitor(before, name) {
            let at = find_config(before, name);
            lemma_captured_source(shorter, at);
            let j = choose|j: int|
                0 <= j < shorter.len() && (#[trigger] shorter[j]).0 == before[at].display_name
                    && shorter[j].1.geometry.is_some();
            assert(shorter[j] == entries[j]);
            assert(false);
        }
        match last.1.geometry {
            Some(g) => {
                lemma_find_config_push(before, captured_entry(last.0, g), name);
            },
            None => {},
        }
    }
}

/// Against their captured layout, the first `count` outputs give the
/// ports and the words of those among them that are part of the desktop.
proof fn lemma_capture_then_enable(entries: Entries, count: int)
    requires
        distinct_names(entries),
        0 <= count <= entries.len(),
    ensures
        enabled_ports(captured(entries), entries.take(count)) == desktop_ports(
            entries.take(count),
        ),
        enable_words(captured(entries), entries.take(count)) == standing_words(
            entries.take(count),
        ),
    decreases count,
{
    if count > 0 {
        let part = entries.take(count);
        assert(part.drop_last() =~= entries.take(count - 1));
        assert(part.last() == entries[count - 1]);
        lemma_capture_then_enable(entries, count - 1);
        lemma_captured_lookup(entries, count - 1);
    }
}

/// Each of the first `count` entries of a captured layout places a live
/// output.
proof fn lemma_capture_leaves_nothing(entries: Entries, count: nat)
    requires
        distinct_names(entries),
        count <= captured(entries).len(),
    ensures
        unmatched_among(captured(entries), entries, count) == Seq::<MonitorConfigView>::empty(),
    decreases count,
{
    if count > 0 {
        lemma_capture_leaves_nothing(entries, (count - 1) as nat);
        let layout = captured(entries);
        let at = count - 1;
        let name = layout[at].display_name;
        lemma_captured_source(entries, at);
        let k = choose|k: int|
            0 <= k < entries.len() && (#[trigger] entries[k]).0 == layout[at].display_name
                && entries[k].1.geometry.is_some();
        lemma_find_name(entries, name);
        assert(has_name(entries, name));
        lemma_captured_lookup(entries, k);
        lemma_find_config(layout, name);
        let first = find_config(layout, name);
        if first != at {
            // two entries of the captured layout with one name
            lemma_captured_distinct(entries, first, at);
        }
    }
}

/// A captured layout names no monitor twice.
proof fn lemma_captured_distinct(entries: Entries, i: int, j: int)
    requires
        distinct_names(entries),
        0 <= i < j < captured(entries).len(),
    ensures
        captured(entries)[i].display_name != captured(entries)[j].display_name,
    decreases entries.len(),
{
    let shorter = entries.drop_last();
    let before = captured(shorter);
    assert(distinct_names(shorter)) by {
        assert forall|a: int, b: int| 0 <= a < b < shorter.len() implies (#[trigger] shorter[a]).0
            != (#[trigger] shorter[b]).0 by {
            assert(shorter[a] == entries[a] && shorter[b] == entries[b]);
        }
    }
    if j < before.len() {
        lemma_captured_distinct(shorter, i, j);
    } else {
        lemma_captured_source(shorter, i);
        let k = choose|k: int|
            0 <= k < shorter.len() && (#[trigger] shorter[k]).0 == before[i].display_name
                && shorter[k].1.geometry.is_some();
        assert(shorter[k] == entries[k]);
        assert(entries[entries.len() - 1] == entries.last());
    }
}

/// A layout captured from the live outputs and reconciled with the same
/// outputs asks for what is there: it enables the ports of the desktop and
/// no others, places each output where it stands, with the extents it had
/// before rotation, and uses up every entry.
pub proof fn lemma_capture_then_reconcile(entries: Entries)
    requires
        distinct_names(entries),
    ensures
        enabled_ports(captured(entries), entries) == desktop_ports(entries),
        enable_words(captured(entries), entries) == standing_words(entries),
        unmatched(captured(entries), entries) == Seq::<MonitorConfigView>::empty(),
{
    assert(entries.take(entries.len() as int) =~= entries);
    lemma_capture_then_enable(entries, entries.len() as int);
    lemma_capture_leaves_nothing(entries, captured(entries).len());
}

} // verus!
