use jumperless::board::{v4, v5};
use jumperless::net_manager::{add_bridge, add_bridge_colored, random_color, saturate, Bridged};
use jumperless::nets::{AddNodeError, Nets, Rgb, SupplySwitchPos};
use jumperless::packet::Packet;
use jumperless::shell::{split_words, Instruction, ParseError};
use jumperless::{ChipId, Crosspoint, NetId, Node};
use rand::SeedableRng;

fn parse(line: &str) -> Result<Option<Instruction<v4::Node>>, ParseError> {
    Instruction::parse(line.as_bytes())
}

fn ids(nets: &Nets<v4::Node>) -> Vec<Vec<v4::Node>> {
    nets.nets().iter().map(|net| net.nodes.iter()).collect()
}

#[test]
fn a_line_is_split_at_spaces() {
    assert_eq!(split_words(b""), Vec::<Vec<u8>>::new());
    assert_eq!(split_words(b" \t\r\n"), Vec::<Vec<u8>>::new());
    assert_eq!(split_words(b"help"), vec![b"help".to_vec()]);
    assert_eq!(
        split_words(b"  add-bridge\t1 \x0c GND\r\n"),
        vec![b"add-bridge".to_vec(), b"1".to_vec(), b"GND".to_vec()]
    );
    for line in ["a b", " a  b ", "\ta\x0bb", "x,y z", ""] {
        let expected: Vec<Vec<u8>> =
            line.split_ascii_whitespace().map(|word| word.as_bytes().to_vec()).collect();
        assert_eq!(split_words(line.as_bytes()), expected, "{:?}", line);
    }
}

#[test]
fn instructions_are_read_from_a_line() {
    assert_eq!(parse(""), Ok(None));
    assert_eq!(parse("   "), Ok(None));
    assert_eq!(parse("help"), Ok(Some(Instruction::Help)));
    assert_eq!(parse(" help \r\n"), Ok(Some(Instruction::Help)));
    assert_eq!(parse("reset"), Ok(Some(Instruction::Reset)));
    assert_eq!(parse("rainbow-bounce"), Ok(Some(Instruction::RainbowBounce)));
    assert_eq!(parse("clear"), Ok(Some(Instruction::Clear)));
    assert_eq!(parse("switch-pos"), Ok(Some(Instruction::PrintSwitchPos)));
    assert_eq!(parse("switch-pos 3V3"), Ok(Some(Instruction::SetSwitchPos(SupplySwitchPos::_3V3))));
    assert_eq!(parse("switch-pos 8V"), Ok(Some(Instruction::SetSwitchPos(SupplySwitchPos::_8V))));
    assert_eq!(
        parse("add-bridge GND 17"),
        Ok(Some(Instruction::AddBridge(v4::Node::GND, v4::Node::_17)))
    );
}

#[test]
fn a_line_that_is_no_instruction_gets_a_message() {
    assert_eq!(parse("helo"), Err(ParseError::NoSuchInstruction));
    assert_eq!(parse("HELP"), Err(ParseError::NoSuchInstruction));
    assert_eq!(parse("help me"), Err(ParseError::UnexpectedExtraArguments));
    assert_eq!(parse("clear all"), Err(ParseError::UnexpectedExtraArguments));
    assert_eq!(parse("switch-pos 5V now"), Err(ParseError::UnexpectedExtraArguments));
    assert_eq!(parse("switch-pos 12V now"), Err(ParseError::UnexpectedExtraArguments));
    assert_eq!(parse("switch-pos 12V"), Err(ParseError::InvalidArgument));
    assert_eq!(parse("add-bridge"), Err(ParseError::MissingArgument));
    assert_eq!(parse("add-bridge GND"), Err(ParseError::MissingArgument));
    assert_eq!(parse("add-bridge GND 1 2"), Err(ParseError::UnexpectedExtraArguments));
    assert_eq!(parse("add-bridge X Y Z"), Err(ParseError::UnexpectedExtraArguments));
    assert_eq!(parse("add-bridge X 1"), Err(ParseError::InvalidFirstNode));
    assert_eq!(parse("add-bridge X Y"), Err(ParseError::InvalidFirstNode));
    assert_eq!(parse("add-bridge 1 Y"), Err(ParseError::InvalidSecondNode));
    assert_eq!(ParseError::InvalidArgument.message(), "Error: invalid argument\r\n");
    assert_eq!(ParseError::MissingArgument.message(), "Error: missing argument\r\n");
    assert_eq!(
        ParseError::UnexpectedExtraArguments.message(),
        "Error: unexpected extra arguments\r\n"
    );
    assert_eq!(ParseError::NoSuchInstruction.message(), "Error: no such instruction\r\n");
    assert_eq!(ParseError::InvalidSecondNode.message(), "Error: invalid second node\r\n");
}

#[test]
fn the_nodes_of_an_instruction_are_those_of_the_board() {
    let line = b"add-bridge TOP_RAIL 1";
    assert_eq!(
        Instruction::<v5::Node>::parse(line),
        Ok(Some(Instruction::AddBridge(v5::Node::TOP_RAIL, v5::Node::_1)))
    );
    assert_eq!(Instruction::<v4::Node>::parse(line), Err(ParseError::InvalidFirstNode));
}

#[test]
fn the_supply_switch_has_three_positions() {
    assert_eq!(SupplySwitchPos::parse("3V3"), Some(SupplySwitchPos::_3V3));
    assert_eq!(SupplySwitchPos::parse("5V"), Some(SupplySwitchPos::_5V));
    assert_eq!(SupplySwitchPos::parse("8V"), Some(SupplySwitchPos::_8V));
    assert_eq!(SupplySwitchPos::parse("5v"), None);
    assert_eq!(SupplySwitchPos::parse(""), None);
    assert_eq!(SupplySwitchPos::parse_bytes(b"8V"), Some(SupplySwitchPos::_8V));
    assert_eq!(SupplySwitchPos::parse_bytes(b"8V "), None);
    assert_eq!(SupplySwitchPos::_3V3.label(), "3V3");
    assert_eq!(SupplySwitchPos::_5V.label(), "5V");
    assert_eq!(SupplySwitchPos::_8V.label(), "8V");
}

#[test]
fn the_netlist_starts_with_the_special_nets() {
    let nets = v4::default_nets();
    assert_eq!(nets.supply_switch_pos(), SupplySwitchPos::_5V);
    assert_eq!(
        ids(&nets),
        vec![
            vec![v4::Node::GND],
            vec![v4::Node::SUPPLY_5V],
            vec![v4::Node::SUPPLY_3V3],
            vec![v4::Node::DAC0],
            vec![v4::Node::DAC1],
            vec![v4::Node::ISENSE_PLUS],
            vec![v4::Node::ISENSE_MINUS],
        ]
    );
    for (index, net) in nets.nets().iter().enumerate() {
        assert_eq!(net.id.index(), index);
        assert!(net.id.is_special());
    }
    assert_eq!(nets.color(NetId::new(1).unwrap()), Rgb(0x00, 0x1c, 0x04));
    assert_eq!(nets.color(NetId::new(3).unwrap()), Rgb(0x1c, 0x01, 0x07));
    assert_eq!(nets.color(NetId::new(7).unwrap()), Rgb(0x23, 0x23, 0x23));

    let nets = v5::default_nets();
    let nodes: Vec<Vec<v5::Node>> = nets.nets().iter().map(|net| net.nodes.iter()).collect();
    assert_eq!(nodes.len(), 7);
    assert_eq!(nodes[1], vec![v5::Node::TOP_RAIL]);
    assert_eq!(nodes[2], vec![v5::Node::BOTTOM_RAIL]);
    assert_eq!(nets.color(NetId::new(2).unwrap()), Rgb(0x30, 0x1A, 0x02));
}

#[test]
fn a_node_belongs_to_one_net_only() {
    let mut nets = v4::default_nets();
    let gnd = NetId::new(1).unwrap();
    let dac = NetId::new(4).unwrap();
    assert_eq!(nets.with_node(v4::Node::GND), Some(gnd));
    assert_eq!(nets.with_node(v4::Node::_5), None);
    assert_eq!(nets.add_node(dac, v4::Node::_5), Ok(()));
    assert_eq!(nets.with_node(v4::Node::_5), Some(dac));
    assert_eq!(nets.add_node(gnd, v4::Node::_5), Err(AddNodeError::NodeAlreadyAssigned(dac)));
    assert_eq!(nets.add_node(dac, v4::Node::_5), Err(AddNodeError::NodeAlreadyAssigned(dac)));
    assert_eq!(ids(&nets)[3], vec![v4::Node::_5, v4::Node::DAC0]);
    nets.remove_node(dac, v4::Node::_5);
    assert_eq!(nets.with_node(v4::Node::_5), None);
    assert_eq!(ids(&nets)[3], vec![v4::Node::DAC0]);
    nets.set_supply_switch_pos(SupplySwitchPos::_8V);
    assert_eq!(nets.supply_switch_pos(), SupplySwitchPos::_8V);
    assert_eq!(ids(&nets).len(), 7);
}

#[test]
fn bridges_make_extend_and_merge_nets() {
    let mut nets = v4::default_nets();
    let color = Rgb(1, 2, 3);
    // two free nodes make a new net
    assert_eq!(add_bridge_colored(&mut nets, v4::Node::_1, v4::Node::_2, color), Bridged::Created);
    assert_eq!(ids(&nets).len(), 8);
    assert_eq!(ids(&nets)[7], vec![v4::Node::_1, v4::Node::_2]);
    let made = NetId::new(8).unwrap();
    assert_eq!(nets.color(made), color);
    assert!(!made.is_special());
    // a free node is added to the net of the other
    assert_eq!(add_bridge_colored(&mut nets, v4::Node::_3, v4::Node::_2, color), Bridged::Extended);
    assert_eq!(add_bridge_colored(&mut nets, v4::Node::GND, v4::Node::_9, color), Bridged::Extended);
    assert_eq!(ids(&nets)[7], vec![v4::Node::_1, v4::Node::_2, v4::Node::_3]);
    assert_eq!(ids(&nets)[0], vec![v4::Node::_9, v4::Node::GND]);
    // two special nets are not merged
    assert_eq!(
        add_bridge_colored(&mut nets, v4::Node::GND, v4::Node::SUPPLY_5V, color),
        Bridged::SpecialNets
    );
    assert_eq!(ids(&nets)[0], vec![v4::Node::_9, v4::Node::GND]);
    assert_eq!(ids(&nets)[1], vec![v4::Node::SUPPLY_5V]);
    // a net is merged into the special net, whichever node comes first
    assert_eq!(add_bridge_colored(&mut nets, v4::Node::_1, v4::Node::_9, color), Bridged::Merged);
    assert_eq!(
        ids(&nets)[0],
        vec![v4::Node::_1, v4::Node::_2, v4::Node::_3, v4::Node::_9, v4::Node::GND]
    );
    assert_eq!(ids(&nets)[7], vec![]);
    assert_eq!(ids(&nets).len(), 8);
    // two nets that are not special are merged into the first
    assert_eq!(add_bridge_colored(&mut nets, v4::Node::_20, v4::Node::_21, color), Bridged::Created);
    assert_eq!(add_bridge_colored(&mut nets, v4::Node::_30, v4::Node::_31, color), Bridged::Created);
    assert_eq!(add_bridge_colored(&mut nets, v4::Node::_31, v4::Node::_20, color), Bridged::Merged);
    assert_eq!(ids(&nets)[8], vec![]);
    assert_eq!(
        ids(&nets)[9],
        vec![v4::Node::_20, v4::Node::_21, v4::Node::_30, v4::Node::_31]
    );
    // two nodes of one net
    assert_eq!(add_bridge_colored(&mut nets, v4::Node::_31, v4::Node::_20, color), Bridged::Merged);
    assert_eq!(ids(&nets)[9].len(), 4);
    // a node bridged with itself
    assert_eq!(add_bridge_colored(&mut nets, v4::Node::_40, v4::Node::_40, color), Bridged::Created);
    assert_eq!(ids(&nets)[10], vec![v4::Node::_40]);
}

#[test]
fn the_netlist_holds_no_more_than_64_nets() {
    let mut nets: Nets<v4::Node> = Nets::new();
    let mut rng = rand::rngs::SmallRng::seed_from_u64(0);
    for id in 0..32u8 {
        let a = <v4::Node as Node>::from_id(2 * id);
        let b = <v4::Node as Node>::from_id(2 * id + 1);
        assert_eq!(add_bridge(&mut nets, a, b, &mut rng), Bridged::Created);
        for _ in 0..1 {
            nets.add_net(&[], Rgb(0, 0, 0));
        }
    }
    assert_eq!(nets.nets().len(), 64);
    assert_eq!(add_bridge(&mut nets, v4::Node::GND, v4::Node::NANO_D0, &mut rng), Bridged::NoRoom);
    nets.add_net(&[v4::Node::GND], Rgb(0, 0, 0));
    assert_eq!(nets.nets().len(), 64);
    assert_eq!(nets.with_node(v4::Node::GND), None);
    assert_eq!(add_bridge(&mut nets, v4::Node::_1, v4::Node::NANO_D0, &mut rng), Bridged::Extended);
    assert_eq!(nets.nets()[0].nodes.len(), 3);
}

#[test]
fn a_random_color_has_one_dark_part() {
    let mut rng = rand::rngs::SmallRng::seed_from_u64(0);
    let mut colors = Vec::new();
    for _ in 0..200 {
        let Rgb(r, g, b) = random_color(&mut rng);
        assert!(r < 64 || g < 64 || b < 64);
        colors.push((r, g, b));
    }
    colors.sort();
    colors.dedup();
    assert!(colors.len() > 150);
    assert_eq!(saturate(Rgb(200, 100, 255), 0), Rgb(50, 100, 255));
    assert_eq!(saturate(Rgb(200, 100, 255), 1), Rgb(200, 25, 255));
    assert_eq!(saturate(Rgb(200, 100, 255), 2), Rgb(200, 100, 63));
}

#[test]
fn a_packet_holds_column_row_and_connect_bit() {
    assert_eq!(Packet::new(0, 0, false).byte(), 0);
    assert_eq!(Packet::new(0, 0, true).byte(), 1);
    assert_eq!(Packet::new(15, 7, true).byte(), 0xFF);
    assert_eq!(Packet::new(15, 0, false).byte(), 0b0001_1110);
    assert_eq!(Packet::new(0, 7, false).byte(), 0b1110_0000);
    assert_eq!(Packet::new(5, 3, true).byte(), 0b0110_1011);
    assert_eq!(Packet::new(5, 3, true).word(), 0x6B00_0000);
    let crosspoint = Crosspoint {
        chip: ChipId::from_ascii(b'C'),
        net_id: NetId::new(9).unwrap(),
        x: 8,
        y: 1,
    };
    assert_eq!(Packet::from_crosspoint(crosspoint), Packet::new(8, 1, true));
    assert_eq!(Packet::from_crosspoint(crosspoint).byte(), 0b0011_0001);
}
