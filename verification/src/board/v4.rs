//! The wiring of revision 4 of the board.

use vstd::prelude::*;

use crate::chip_id::ChipId;
use crate::dimension::Dimension;
use crate::lane::Lane;
use crate::port::Port;
use vstd::string::StringSliceAdditionalSpecFns;

verus! {

/// The nodes of the board: the rows of the breadboard by their numbers, and
/// the other connection points by their names.
#[allow(non_camel_case_types)]
#[derive(Copy, Clone, Debug, PartialEq, Eq)]
pub enum Node {
    _1,
    _2,
    _3,
    _4,
    _5,
    _6,
    _7,
    _8,
    _9,
    _10,
    _11,
    _12,
    _13,
    _14,
    _15,
    _16,
    _17,
    _18,
    _19,
    _20,
    _21,
    _22,
    _23,
    _24,
    _25,
    _26,
    _27,
    _28,
    _29,
    _30,
    _31,
    _32,
    _33,
    _34,
    _35,
    _36,
    _37,
    _38,
    _39,
    _40,
    _41,
    _42,
    _43,
    _44,
    _45,
    _46,
    _47,
    _48,
    _49,
    _50,
    _51,
    _52,
    _53,
    _54,
    _55,
    _56,
    _57,
    _58,
    _59,
    _60,
    NANO_A0,
    NANO_D1,
    NANO_A2,
    NANO_D3,
    NANO_A4,
    NANO_D5,
    NANO_A6,
    NANO_D7,
    NANO_D11,
    NANO_D9,
    NANO_D13,
    NANO_RESET,
    DAC0,
    DAC1,
    ADC0,
    ADC1,
    ADC2,
    ADC3,
    SUPPLY_3V3,
    GND,
    NANO_D0,
    NANO_A1,
    NANO_D2,
    NANO_A3,
    NANO_D4,
    NANO_A5,
    NANO_D6,
    NANO_A7,
    NANO_D8,
    NANO_D10,
    NANO_D12,
    NANO_AREF,
    SUPPLY_5V,
    ISENSE_MINUS,
    ISENSE_PLUS,
    RP_UART_TX,
    RP_UART_RX,
    RP_GPIO0,
}

/// How many nodes the board has.
pub const NODE_COUNT: u8 = 98;

impl crate::node::Node for Node {
    open spec fn spec_id(&self) -> u8 {
        match self {
            Node::_1 => 0,
            Node::_2 => 1,
            Node::_3 => 2,
            Node::_4 => 3,
            Node::_5 => 4,
            Node::_6 => 5,
            Node::_7 => 6,
            Node::_8 => 7,
            Node::_9 => 8,
            Node::_10 => 9,
            Node::_11 => 10,
            Node::_12 => 11,
            Node::_13 => 12,
            Node::_14 => 13,
            Node::_15 => 14,
            Node::_16 => 15,
            Node::_17 => 16,
            Node::_18 => 17,
            Node::_19 => 18,
            Node::_20 => 19,
            Node::_21 => 20,
            Node::_22 => 21,
            Node::_23 => 22,
            Node::_24 => 23,
            Node::_25 => 24,
            Node::_26 => 25,
            Node::_27 => 26,
            Node::_28 => 27,
            Node::_29 => 28,
            Node::_30 => 29,
            Node::_31 => 30,
            Node::_32 => 31,
            Node::_33 => 32,
            Node::_34 => 33,
            Node::_35 => 34,
            Node::_36 => 35,
            Node::_37 => 36,
            Node::_38 => 37,
            Node::_39 => 38,
            Node::_40 => 39,
            Node::_41 => 40,
            Node::_42 => 41,
            Node::_43 => 42,
            Node::_44 => 43,
            Node::_45 => 44,
            Node::_46 => 45,
            Node::_47 => 46,
            Node::_48 => 47,
            Node::_49 => 48,
            Node::_50 => 49,
            Node::_51 => 50,
            Node::_52 => 51,
            Node::_53 => 52,
            Node::_54 => 53,
            Node::_55 => 54,
            Node::_56 => 55,
            Node::_57 => 56,
            Node::_58 => 57,
            Node::_59 => 58,
            Node::_60 => 59,
            Node::NANO_A0 => 60,
            Node::NANO_D1 => 61,
            Node::NANO_A2 => 62,
            Node::NANO_D3 => 63,
            Node::NANO_A4 => 64,
            Node::NANO_D5 => 65,
            Node::NANO_A6 => 66,
            Node::NANO_D7 => 67,
            Node::NANO_D11 => 68,
            Node::NANO_D9 => 69,
            Node::NANO_D13 => 70,
            Node::NANO_RESET => 71,
            Node::DAC0 => 72,
            Node::DAC1 => 73,
            Node::ADC0 => 74,
            Node::ADC1 => 75,
            Node::ADC2 => 76,
            Node::ADC3 => 77,
            Node::SUPPLY_3V3 => 78,
            Node::GND => 79,
            Node::NANO_D0 => 80,
            Node::NANO_A1 => 81,
            Node::NANO_D2 => 82,
            Node::NANO_A3 => 83,
            Node::NANO_D4 => 84,
            Node::NANO_A5 => 85,
            Node::NANO_D6 => 86,
            Node::NANO_A7 => 87,
            Node::NANO_D8 => 88,
            Node::NANO_D10 => 89,
            Node::NANO_D12 => 90,
            Node::NANO_AREF => 91,
            Node::SUPPLY_5V => 92,
            Node::ISENSE_MINUS => 93,
            Node::ISENSE_PLUS => 94,
            Node::RP_UART_TX => 95,
            Node::RP_UART_RX => 96,
            Node::RP_GPIO0 => 97,
        }
    }

    open spec fn valid_id(id: u8) -> bool {
        id < NODE_COUNT
    }

    fn id(&self) -> (r: u8) {
        match self {
            Node::_1 => 0,
            Node::_2 => 1,
            Node::_3 => 2,
            Node::_4 => 3,
            Node::_5 => 4,
            Node::_6 => 5,
            Node::_7 => 6,
            Node::_8 => 7,
            Node::_9 => 8,
            Node::_10 => 9,
            Node::_11 => 10,
            Node::_12 => 11,
            Node::_13 => 12,
            Node::_14 => 13,
            Node::_15 => 14,
            Node::_16 => 15,
            Node::_17 => 16,
            Node::_18 => 17,
            Node::_19 => 18,
            Node::_20 => 19,
            Node::_21 => 20,
            Node::_22 => 21,
            Node::_23 => 22,
            Node::_24 => 23,
            Node::_25 => 24,
            Node::_26 => 25,
            Node::_27 => 26,
            Node::_28 => 27,
            Node::_29 => 28,
            Node::_30 => 29,
            Node::_31 => 30,
            Node::_32 => 31,
            Node::_33 => 32,
            Node::_34 => 33,
            Node::_35 => 34,
            Node::_36 => 35,
            Node::_37 => 36,
            Node::_38 => 37,
            Node::_39 => 38,
            Node::_40 => 39,
            Node::_41 => 40,
            Node::_42 => 41,
            Node::_43 => 42,
            Node::_44 => 43,
            Node::_45 => 44,
            Node::_46 => 45,
            Node::_47 => 46,
            Node::_48 => 47,
            Node::_49 => 48,
            Node::_50 => 49,
            Node::_51 => 50,
            Node::_52 => 51,
            Node::_53 => 52,
            Node::_54 => 53,
            Node::_55 => 54,
            Node::_56 => 55,
            Node::_57 => 56,
            Node::_58 => 57,
            Node::_59 => 58,
            Node::_60 => 59,
            Node::NANO_A0 => 60,
            Node::NANO_D1 => 61,
            Node::NANO_A2 => 62,
            Node::NANO_D3 => 63,
            Node::NANO_A4 => 64,
            Node::NANO_D5 => 65,
            Node::NANO_A6 => 66,
            Node::NANO_D7 => 67,
            Node::NANO_D11 => 68,
            Node::NANO_D9 => 69,
            Node::NANO_D13 => 70,
            Node::NANO_RESET => 71,
            Node::DAC0 => 72,
            Node::DAC1 => 73,
            Node::ADC0 => 74,
            Node::ADC1 => 75,
            Node::ADC2 => 76,
            Node::ADC3 => 77,
            Node::SUPPLY_3V3 => 78,
            Node::GND => 79,
            Node::NANO_D0 => 80,
            Node::NANO_A1 => 81,
            Node::NANO_D2 => 82,
            Node::NANO_A3 => 83,
            Node::NANO_D4 => 84,
            Node::NANO_A5 => 85,
            Node::NANO_D6 => 86,
            Node::NANO_A7 => 87,
            Node::NANO_D8 => 88,
            Node::NANO_D10 => 89,
            Node::NANO_D12 => 90,
            Node::NANO_AREF => 91,
            Node::SUPPLY_5V => 92,
            Node::ISENSE_MINUS => 93,
            Node::ISENSE_PLUS => 94,
            Node::RP_UART_TX => 95,
            Node::RP_UART_RX => 96,
            Node::RP_GPIO0 => 97,
        }
    }

    fn from_id(id: u8) -> (r: Self) {
        match id {
            0 => Node::_1,
            1 => Node::_2,
            2 => Node::_3,
            3 => Node::_4,
            4 => Node::_5,
            5 => Node::_6,
            6 => Node::_7,
            7 => Node::_8,
            8 => Node::_9,
            9 => Node::_10,
            10 => Node::_11,
            11 => Node::_12,
            12 => Node::_13,
            13 => Node::_14,
            14 => Node::_15,
            15 => Node::_16,
            16 => Node::_17,
            17 => Node::_18,
            18 => Node::_19,
            19 => Node::_20,
            20 => Node::_21,
            21 => Node::_22,
            22 => Node::_23,
            23 => Node::_24,
            24 => Node::_25,
            25 => Node::_26,
            26 => Node::_27,
            27 => Node::_28,
            28 => Node::_29,
            29 => Node::_30,
            30 => Node::_31,
            31 => Node::_32,
            32 => Node::_33,
            33 => Node::_34,
            34 => Node::_35,
            35 => Node::_36,
            36 => Node::_37,
            37 => Node::_38,
            38 => Node::_39,
            39 => Node::_40,
            40 => Node::_41,
            41 => Node::_42,
            42 => Node::_43,
            43 => Node::_44,
            44 => Node::_45,
            45 => Node::_46,
            46 => Node::_47,
            47 => Node::_48,
            48 => Node::_49,
            49 => Node::_50,
            50 => Node::_51,
            51 => Node::_52,
            52 => Node::_53,
            53 => Node::_54,
            54 => Node::_55,
            55 => Node::_56,
            56 => Node::_57,
            57 => Node::_58,
            58 => Node::_59,
            59 => Node::_60,
            60 => Node::NANO_A0,
            61 => Node::NANO_D1,
            62 => Node::NANO_A2,
            63 => Node::NANO_D3,
            64 => Node::NANO_A4,
            65 => Node::NANO_D5,
            66 => Node::NANO_A6,
            67 => Node::NANO_D7,
            68 => Node::NANO_D11,
            69 => Node::NANO_D9,
            70 => Node::NANO_D13,
            71 => Node::NANO_RESET,
            72 => Node::DAC0,
            73 => Node::DAC1,
            74 => Node::ADC0,
            75 => Node::ADC1,
            76 => Node::ADC2,
            77 => Node::ADC3,
            78 => Node::SUPPLY_3V3,
            79 => Node::GND,
            80 => Node::NANO_D0,
            81 => Node::NANO_A1,
            82 => Node::NANO_D2,
            83 => Node::NANO_A3,
            84 => Node::NANO_D4,
            85 => Node::NANO_A5,
            86 => Node::NANO_D6,
            87 => Node::NANO_A7,
            88 => Node::NANO_D8,
            89 => Node::NANO_D10,
            90 => Node::NANO_D12,
            91 => Node::NANO_AREF,
            92 => Node::SUPPLY_5V,
            93 => Node::ISENSE_MINUS,
            94 => Node::ISENSE_PLUS,
            95 => Node::RP_UART_TX,
            96 => Node::RP_UART_RX,
            _ => Node::RP_GPIO0,
        }
    }

    proof fn lemma_id_injective(a: Self, b: Self) {
    }
}

impl Node {
    /// The name of the node, as the description of the board gives it.
    pub open spec fn spec_name(&self) -> Seq<char> {
        match self {
            Node::_1 => "1"@,
            Node::_2 => "2"@,
            Node::_3 => "3"@,
            Node::_4 => "4"@,
            Node::_5 => "5"@,
            Node::_6 => "6"@,
            Node::_7 => "7"@,
            Node::_8 => "8"@,
            Node::_9 => "9"@,
            Node::_10 => "10"@,
            Node::_11 => "11"@,
            Node::_12 => "12"@,
            Node::_13 => "13"@,
            Node::_14 => "14"@,
            Node::_15 => "15"@,
            Node::_16 => "16"@,
            Node::_17 => "17"@,
            Node::_18 => "18"@,
            Node::_19 => "19"@,
            Node::_20 => "20"@,
            Node::_21 => "21"@,
            Node::_22 => "22"@,
            Node::_23 => "23"@,
            Node::_24 => "24"@,
            Node::_25 => "25"@,
            Node::_26 => "26"@,
            Node::_27 => "27"@,
            Node::_28 => "28"@,
            Node::_29 => "29"@,
            Node::_30 => "30"@,
            Node::_31 => "31"@,
            Node::_32 => "32"@,
            Node::_33 => "33"@,
            Node::_34 => "34"@,
            Node::_35 => "35"@,
            Node::_36 => "36"@,
            Node::_37 => "37"@,
            Node::_38 => "38"@,
            Node::_39 => "39"@,
            Node::_40 => "40"@,
            Node::_41 => "41"@,
            Node::_42 => "42"@,
            Node::_43 => "43"@,
            Node::_44 => "44"@,
            Node::_45 => "45"@,
            Node::_46 => "46"@,
            Node::_47 => "47"@,
            Node::_48 => "48"@,
            Node::_49 => "49"@,
            Node::_50 => "50"@,
            Node::_51 => "51"@,
            Node::_52 => "52"@,
            Node::_53 => "53"@,
            Node::_54 => "54"@,
            Node::_55 => "55"@,
            Node::_56 => "56"@,
            Node::_57 => "57"@,
            Node::_58 => "58"@,
            Node::_59 => "59"@,
            Node::_60 => "60"@,
            Node::NANO_A0 => "NANO_A0"@,
            Node::NANO_D1 => "NANO_D1"@,
            Node::NANO_A2 => "NANO_A2"@,
            Node::NANO_D3 => "NANO_D3"@,
            Node::NANO_A4 => "NANO_A4"@,
            Node::NANO_D5 => "NANO_D5"@,
            Node::NANO_A6 => "NANO_A6"@,
            Node::NANO_D7 => "NANO_D7"@,
            Node::NANO_D11 => "NANO_D11"@,
            Node::NANO_D9 => "NANO_D9"@,
            Node::NANO_D13 => "NANO_D13"@,
            Node::NANO_RESET => "NANO_RESET"@,
            Node::DAC0 => "DAC0"@,
            Node::DAC1 => "DAC1"@,
            Node::ADC0 => "ADC0"@,
            Node::ADC1 => "ADC1"@,
            Node::ADC2 => "ADC2"@,
            Node::ADC3 => "ADC3"@,
            Node::SUPPLY_3V3 => "SUPPLY_3V3"@,
            Node::GND => "GND"@,
            Node::NANO_D0 => "NANO_D0"@,
            Node::NANO_A1 => "NANO_A1"@,
            Node::NANO_D2 => "NANO_D2"@,
            Node::NANO_A3 => "NANO_A3"@,
            Node::NANO_D4 => "NANO_D4"@,
            Node::NANO_A5 => "NANO_A5"@,
            Node::NANO_D6 => "NANO_D6"@,
            Node::NANO_A7 => "NANO_A7"@,
            Node::NANO_D8 => "NANO_D8"@,
            Node::NANO_D10 => "NANO_D10"@,
            Node::NANO_D12 => "NANO_D12"@,
            Node::NANO_AREF => "NANO_AREF"@,
            Node::SUPPLY_5V => "SUPPLY_5V"@,
            Node::ISENSE_MINUS => "ISENSE_MINUS"@,
            Node::ISENSE_PLUS => "ISENSE_PLUS"@,
            Node::RP_UART_TX => "RP_UART_TX"@,
            Node::RP_UART_RX => "RP_UART_RX"@,
            Node::RP_GPIO0 => "RP_GPIO0"@,
        }
    }

    /// The name of the node.
    pub fn as_str(&self) -> (r: &'static str)
        ensures
            r@ == self.spec_name(),
    {
        match self {
            Node::_1 => "1",
            Node::_2 => "2",
            Node::_3 => "3",
            Node::_4 => "4",
            Node::_5 => "5",
            Node::_6 => "6",
            Node::_7 => "7",
            Node::_8 => "8",
            Node::_9 => "9",
            Node::_10 => "10",
            Node::_11 => "11",
            Node::_12 => "12",
            Node::_13 => "13",
            Node::_14 => "14",
            Node::_15 => "15",
            Node::_16 => "16",
            Node::_17 => "17",
            Node::_18 => "18",
            Node::_19 => "19",
            Node::_20 => "20",
            Node::_21 => "21",
            Node::_22 => "22",
            Node::_23 => "23",
            Node::_24 => "24",
            Node::_25 => "25",
            Node::_26 => "26",
            Node::_27 => "27",
            Node::_28 => "28",
            Node::_29 => "29",
            Node::_30 => "30",
            Node::_31 => "31",
            Node::_32 => "32",
            Node::_33 => "33",
            Node::_34 => "34",
            Node::_35 => "35",
            Node::_36 => "36",
            Node::_37 => "37",
            Node::_38 => "38",
            Node::_39 => "39",
            Node::_40 => "40",
            Node::_41 => "41",
            Node::_42 => "42",
            Node::_43 => "43",
            Node::_44 => "44",
            Node::_45 => "45",
            Node::_46 => "46",
            Node::_47 => "47",
            Node::_48 => "48",
            Node::_49 => "49",
            Node::_50 => "50",
            Node::_51 => "51",
            Node::_52 => "52",
            Node::_53 => "53",
            Node::_54 => "54",
            Node::_55 => "55",
            Node::_56 => "56",
            Node::_57 => "57",
            Node::_58 => "58",
            Node::_59 => "59",
            Node::_60 => "60",
            Node::NANO_A0 => "NANO_A0",
            Node::NANO_D1 => "NANO_D1",
            Node::NANO_A2 => "NANO_A2",
            Node::NANO_D3 => "NANO_D3",
            Node::NANO_A4 => "NANO_A4",
            Node::NANO_D5 => "NANO_D5",
            Node::NANO_A6 => "NANO_A6",
            Node::NANO_D7 => "NANO_D7",
            Node::NANO_D11 => "NANO_D11",
            Node::NANO_D9 => "NANO_D9",
            Node::NANO_D13 => "NANO_D13",
            Node::NANO_RESET => "NANO_RESET",
            Node::DAC0 => "DAC0",
            Node::DAC1 => "DAC1",
            Node::ADC0 => "ADC0",
            Node::ADC1 => "ADC1",
            Node::ADC2 => "ADC2",
            Node::ADC3 => "ADC3",
            Node::SUPPLY_3V3 => "SUPPLY_3V3",
            Node::GND => "GND",
            Node::NANO_D0 => "NANO_D0",
            Node::NANO_A1 => "NANO_A1",
            Node::NANO_D2 => "NANO_D2",
            Node::NANO_A3 => "NANO_A3",
            Node::NANO_D4 => "NANO_D4",
            Node::NANO_A5 => "NANO_A5",
            Node::NANO_D6 => "NANO_D6",
            Node::NANO_A7 => "NANO_A7",
            Node::NANO_D8 => "NANO_D8",
            Node::NANO_D10 => "NANO_D10",
            Node::NANO_D12 => "NANO_D12",
            Node::NANO_AREF => "NANO_AREF",
            Node::SUPPLY_5V => "SUPPLY_5V",
            Node::ISENSE_MINUS => "ISENSE_MINUS",
            Node::ISENSE_PLUS => "ISENSE_PLUS",
            Node::RP_UART_TX => "RP_UART_TX",
            Node::RP_UART_RX => "RP_UART_RX",
            Node::RP_GPIO0 => "RP_GPIO0",
        }
    }
}

/// The text is not the name of a node.
#[derive(Debug, PartialEq, Eq)]
pub struct InvalidNode;

impl crate::node::NamedNode for Node {
    open spec fn name_bytes(&self) -> Seq<u8> {
        vstd::utf8::encode_utf8(self.spec_name())
    }

    fn from_name(name: &[u8]) -> (r: Option<Node>) {
        let mut id: u8 = 0;
        while id < NODE_COUNT
            invariant
                id <= NODE_COUNT,
                forall|node: Node|
                    crate::node::Node::spec_id(&node) < id ==> #[trigger] crate::node::NamedNode::name_bytes(
                        &node,
                    ) != name@,
            decreases NODE_COUNT - id,
        {
            let node = <Node as crate::node::Node>::from_id(id);
            if crate::text::same_bytes(node.as_str().as_bytes(), name) {
                return Some(node);
            }
            proof {
                assert forall|other: Node|
                    crate::node::Node::spec_id(&other) < id
                        + 1 implies #[trigger] crate::node::NamedNode::name_bytes(&other)
                    != name@ by {
                    if crate::node::Node::spec_id(&other) == id {
                        <Node as crate::node::Node>::lemma_id_injective(other, node);
                    }
                }
            }
            id += 1;
        }
        None
    }
}

impl core::str::FromStr for Node {
    type Err = InvalidNode;

    /// The node with the given name.
    fn from_str(s: &str) -> (r: Result<Self, Self::Err>)
        ensures
            match r {
                Ok(node) => node.spec_name() == s@,
                Err(_) => forall|node: Node| #[trigger] node.spec_name() != s@,
            },
    {
        proof {
            vstd::utf8::encode_utf8_decode_utf8(s@);
            assert forall|node: Node|
                (#[trigger] node.spec_name() == s@) == (crate::node::NamedNode::name_bytes(&node)
                    == s.spec_bytes()) by {
                vstd::utf8::encode_utf8_decode_utf8(node.spec_name());
            }
        }
        match <Node as crate::node::NamedNode>::from_name(s.as_bytes()) {
            Some(node) => Ok(node),
            None => Err(InvalidNode),
        }
    }
}

pub type BoardSpec = crate::board_spec::BoardSpec<Node, 120, 84, 0>;

pub type Board = crate::board::Board<Node, 120, 84, 0>;

/// The port on the X edge of the chip with the given letter.
pub open spec fn spec_x(chip: char, index: u8) -> Port {
    Port::spec_new(ChipId::spec_from_index(chip as u8 - 65), Dimension::X, index)
}

/// The port on the Y edge of the chip with the given letter.
pub open spec fn spec_y(chip: char, index: u8) -> Port {
    Port::spec_new(ChipId::spec_from_index(chip as u8 - 65), Dimension::Y, index)
}

/// The node-port at the given position of the list: a node, and a port that
/// it is wired to.
pub open spec fn spec_node_port(position: usize) -> crate::board_spec::NodePort<Node> {
    match position {
        0 => crate::board_spec::NodePort(Node::_1, spec_x('L', 8)),
        1 => crate::board_spec::NodePort(Node::_2, spec_y('A', 1)),
        2 => crate::board_spec::NodePort(Node::_3, spec_y('A', 2)),
        3 => crate::board_spec::NodePort(Node::_4, spec_y('A', 3)),
        4 => crate::board_spec::NodePort(Node::_5, spec_y('A', 4)),
        5 => crate::board_spec::NodePort(Node::_6, spec_y('A', 5)),
        6 => crate::board_spec::NodePort(Node::_7, spec_y('A', 6)),
        7 => crate::board_spec::NodePort(Node::_8, spec_y('A', 7)),
        8 => crate::board_spec::NodePort(Node::_9, spec_y('B', 1)),
        9 => crate::board_spec::NodePort(Node::_10, spec_y('B', 2)),
        10 => crate::board_spec::NodePort(Node::_11, spec_y('B', 3)),
        11 => crate::board_spec::NodePort(Node::_12, spec_y('B', 4)),
        12 => crate::board_spec::NodePort(Node::_13, spec_y('B', 5)),
        13 => crate::board_spec::NodePort(Node::_14, spec_y('B', 6)),
        14 => crate::board_spec::NodePort(Node::_15, spec_y('B', 7)),
        15 => crate::board_spec::NodePort(Node::_16, spec_y('C', 1)),
        16 => crate::board_spec::NodePort(Node::_17, spec_y('C', 2)),
        17 => crate::board_spec::NodePort(Node::_18, spec_y('C', 3)),
        18 => crate::board_spec::NodePort(Node::_19, spec_y('C', 4)),
        19 => crate::board_spec::NodePort(Node::_20, spec_y('C', 5)),
        20 => crate::board_spec::NodePort(Node::_21, spec_y('C', 6)),
        21 => crate::board_spec::NodePort(Node::_22, spec_y('C', 7)),
        22 => crate::board_spec::NodePort(Node::_23, spec_y('D', 1)),
        23 => crate::board_spec::NodePort(Node::_24, spec_y('D', 2)),
        24 => crate::board_spec::NodePort(Node::_25, spec_y('D', 3)),
        25 => crate::board_spec::NodePort(Node::_26, spec_y('D', 4)),
        26 => crate::board_spec::NodePort(Node::_27, spec_y('D', 5)),
        27 => crate::board_spec::NodePort(Node::_28, spec_y('D', 6)),
        28 => crate::board_spec::NodePort(Node::_29, spec_y('D', 7)),
        29 => crate::board_spec::NodePort(Node::_30, spec_x('L', 9)),
        30 => crate::board_spec::NodePort(Node::_31, spec_x('L', 10)),
        31 => crate::board_spec::NodePort(Node::_32, spec_y('E', 1)),
        32 => crate::board_spec::NodePort(Node::_33, spec_y('E', 2)),
        33 => crate::board_spec::NodePort(Node::_34, spec_y('E', 3)),
        34 => crate::board_spec::NodePort(Node::_35, spec_y('E', 4)),
        35 => crate::board_spec::NodePort(Node::_36, spec_y('E', 5)),
        36 => crate::board_spec::NodePort(Node::_37, spec_y('E', 6)),
        37 => crate::board_spec::NodePort(Node::_38, spec_y('E', 7)),
        38 => crate::board_spec::NodePort(Node::_39, spec_y('F', 1)),
        39 => crate::board_spec::NodePort(Node::_40, spec_y('F', 2)),
        40 => crate::board_spec::NodePort(Node::_41, spec_y('F', 3)),
        41 => crate::board_spec::NodePort(Node::_42, spec_y('F', 4)),
        42 => crate::board_spec::NodePort(Node::_43, spec_y('F', 5)),
        43 => crate::board_spec::NodePort(Node::_44, spec_y('F', 6)),
        44 => crate::board_spec::NodePort(Node::_45, spec_y('F', 7)),
        45 => crate::board_spec::NodePort(Node::_46, spec_y('G', 1)),
        46 => crate::board_spec::NodePort(Node::_47, spec_y('G', 2)),
        47 => crate::board_spec::NodePort(Node::_48, spec_y('G', 3)),
        48 => crate::board_spec::NodePort(Node::_49, spec_y('G', 4)),
        49 => crate::board_spec::NodePort(Node::_50, spec_y('G', 5)),
        50 => crate::board_spec::NodePort(Node::_51, spec_y('G', 6)),
        51 => crate::board_spec::NodePort(Node::_52, spec_y('G', 7)),
        52 => crate::board_spec::NodePort(Node::_53, spec_y('H', 1)),
        53 => crate::board_spec::NodePort(Node::_54, spec_y('H', 2)),
        54 => crate::board_spec::NodePort(Node::_55, spec_y('H', 3)),
        55 => crate::board_spec::NodePort(Node::_56, spec_y('H', 4)),
        56 => crate::board_spec::NodePort(Node::_57, spec_y('H', 5)),
        57 => crate::board_spec::NodePort(Node::_58, spec_y('H', 6)),
        58 => crate::board_spec::NodePort(Node::_59, spec_y('H', 7)),
        59 => crate::board_spec::NodePort(Node::_60, spec_x('L', 11)),
        60 => crate::board_spec::NodePort(Node::NANO_A0, spec_x('I', 0)),
        61 => crate::board_spec::NodePort(Node::NANO_D1, spec_x('I', 1)),
        62 => crate::board_spec::NodePort(Node::NANO_A2, spec_x('I', 2)),
        63 => crate::board_spec::NodePort(Node::NANO_D3, spec_x('I', 3)),
        64 => crate::board_spec::NodePort(Node::NANO_A4, spec_x('I', 4)),
        65 => crate::board_spec::NodePort(Node::NANO_D5, spec_x('I', 5)),
        66 => crate::board_spec::NodePort(Node::NANO_A6, spec_x('I', 6)),
        67 => crate::board_spec::NodePort(Node::NANO_D7, spec_x('I', 7)),
        68 => crate::board_spec::NodePort(Node::NANO_D11, spec_x('I', 8)),
        69 => crate::board_spec::NodePort(Node::NANO_D9, spec_x('I', 9)),
        70 => crate::board_spec::NodePort(Node::NANO_D13, spec_x('I', 10)),
        71 => crate::board_spec::NodePort(Node::NANO_RESET, spec_x('I', 11)),
        72 => crate::board_spec::NodePort(Node::DAC0, spec_x('I', 12)),
        73 => crate::board_spec::NodePort(Node::DAC0, spec_x('L', 7)),
        74 => crate::board_spec::NodePort(Node::DAC1, spec_x('L', 6)),
        75 => crate::board_spec::NodePort(Node::DAC1, spec_x('J', 12)),
        76 => crate::board_spec::NodePort(Node::ADC0, spec_x('L', 2)),
        77 => crate::board_spec::NodePort(Node::ADC1, spec_x('L', 3)),
        78 => crate::board_spec::NodePort(Node::ADC1, spec_x('J', 13)),
        79 => crate::board_spec::NodePort(Node::ADC2, spec_x('L', 4)),
        80 => crate::board_spec::NodePort(Node::ADC2, spec_x('K', 15)),
        81 => crate::board_spec::NodePort(Node::ADC3, spec_x('L', 5)),
        82 => crate::board_spec::NodePort(Node::ADC0, spec_x('I', 13)),
        83 => crate::board_spec::NodePort(Node::SUPPLY_3V3, spec_x('I', 14)),
        84 => crate::board_spec::NodePort(Node::GND, spec_x('I', 15)),
        85 => crate::board_spec::NodePort(Node::NANO_D0, spec_x('J', 0)),
        86 => crate::board_spec::NodePort(Node::NANO_A1, spec_x('J', 1)),
        87 => crate::board_spec::NodePort(Node::NANO_D2, spec_x('J', 2)),
        88 => crate::board_spec::NodePort(Node::NANO_A3, spec_x('J', 3)),
        89 => crate::board_spec::NodePort(Node::NANO_D4, spec_x('J', 4)),
        90 => crate::board_spec::NodePort(Node::NANO_A5, spec_x('J', 5)),
        91 => crate::board_spec::NodePort(Node::NANO_D6, spec_x('J', 6)),
        92 => crate::board_spec::NodePort(Node::NANO_A7, spec_x('J', 7)),
        93 => crate::board_spec::NodePort(Node::NANO_D8, spec_x('J', 8)),
        94 => crate::board_spec::NodePort(Node::NANO_D10, spec_x('J', 9)),
        95 => crate::board_spec::NodePort(Node::NANO_D12, spec_x('J', 10)),
        96 => crate::board_spec::NodePort(Node::NANO_AREF, spec_x('J', 11)),
        97 => crate::board_spec::NodePort(Node::SUPPLY_5V, spec_x('J', 14)),
        98 => crate::board_spec::NodePort(Node::GND, spec_x('J', 15)),
        99 => crate::board_spec::NodePort(Node::NANO_A0, spec_x('K', 0)),
        100 => crate::board_spec::NodePort(Node::NANO_A1, spec_x('K', 1)),
        101 => crate::board_spec::NodePort(Node::NANO_A2, spec_x('K', 2)),
        102 => crate::board_spec::NodePort(Node::NANO_A3, spec_x('K', 3)),
        103 => crate::board_spec::NodePort(Node::NANO_D2, spec_x('K', 4)),
        104 => crate::board_spec::NodePort(Node::NANO_D3, spec_x('K', 5)),
        105 => crate::board_spec::NodePort(Node::NANO_D4, spec_x('K', 6)),
        106 => crate::board_spec::NodePort(Node::NANO_D5, spec_x('K', 7)),
        107 => crate::board_spec::NodePort(Node::NANO_D6, spec_x('K', 8)),
        108 => crate::board_spec::NodePort(Node::NANO_D7, spec_x('K', 9)),
        109 => crate::board_spec::NodePort(Node::NANO_D8, spec_x('K', 10)),
        110 => crate::board_spec::NodePort(Node::NANO_D9, spec_x('K', 11)),
        111 => crate::board_spec::NodePort(Node::NANO_D10, spec_x('K', 12)),
        112 => crate::board_spec::NodePort(Node::NANO_D11, spec_x('K', 13)),
        113 => crate::board_spec::NodePort(Node::NANO_D12, spec_x('K', 14)),
        114 => crate::board_spec::NodePort(Node::ISENSE_MINUS, spec_x('L', 0)),
        115 => crate::board_spec::NodePort(Node::ISENSE_PLUS, spec_x('L', 1)),
        116 => crate::board_spec::NodePort(Node::RP_UART_TX, spec_x('L', 12)),
        117 => crate::board_spec::NodePort(Node::RP_UART_RX, spec_x('L', 13)),
        118 => crate::board_spec::NodePort(Node::SUPPLY_5V, spec_x('L', 14)),
        _ => crate::board_spec::NodePort(Node::RP_GPIO0, spec_x('L', 15)),
    }
}

/// The ports that the nodes are wired to.
pub open spec fn spec_node_ports() -> Seq<crate::board_spec::NodePort<Node>> {
    Seq::new(120, |position: int| spec_node_port(position as usize))
}

/// The lane at the given position of the list.
pub open spec fn spec_lane(position: usize) -> Lane {
    match position {
        0 => Lane(spec_x('A', 0), spec_y('I', 0)),
        1 => Lane(spec_x('A', 1), spec_y('J', 0)),
        2 => Lane(spec_x('A', 2), spec_x('B', 0)),
        3 => Lane(spec_x('A', 3), spec_x('B', 1)),
        4 => Lane(spec_x('A', 4), spec_x('C', 0)),
        5 => Lane(spec_x('A', 5), spec_x('C', 1)),
        6 => Lane(spec_x('A', 6), spec_x('D', 0)),
        7 => Lane(spec_x('A', 7), spec_x('D', 1)),
        8 => Lane(spec_x('A', 8), spec_x('E', 0)),
        9 => Lane(spec_x('A', 9), spec_y('K', 0)),
        10 => Lane(spec_x('A', 10), spec_x('F', 0)),
        11 => Lane(spec_x('A', 11), spec_x('F', 1)),
        12 => Lane(spec_x('A', 12), spec_x('G', 0)),
        13 => Lane(spec_x('A', 13), spec_x('G', 1)),
        14 => Lane(spec_x('A', 14), spec_x('H', 0)),
        15 => Lane(spec_x('A', 15), spec_x('H', 1)),
        16 => Lane(spec_y('A', 0), spec_y('L', 0)),
        17 => Lane(spec_x('B', 2), spec_y('I', 1)),
        18 => Lane(spec_x('B', 3), spec_y('J', 1)),
        19 => Lane(spec_x('B', 4), spec_x('C', 2)),
        20 => Lane(spec_x('B', 5), spec_x('C', 3)),
        21 => Lane(spec_x('B', 6), spec_x('D', 2)),
        22 => Lane(spec_x('B', 7), spec_x('D', 3)),
        23 => Lane(spec_x('B', 8), spec_x('E', 2)),
        24 => Lane(spec_x('B', 9), spec_x('E', 3)),
        25 => Lane(spec_x('B', 10), spec_x('F', 2)),
        26 => Lane(spec_x('B', 11), spec_y('K', 1)),
        27 => Lane(spec_x('B', 12), spec_x('G', 2)),
        28 => Lane(spec_x('B', 13), spec_x('G', 3)),
        29 => Lane(spec_x('B', 14), spec_x('H', 2)),
        30 => Lane(spec_x('B', 15), spec_x('H', 3)),
        31 => Lane(spec_y('B', 0), spec_y('L', 1)),
        32 => Lane(spec_x('C', 4), spec_y('I', 2)),
        33 => Lane(spec_x('C', 5), spec_y('J', 2)),
        34 => Lane(spec_x('C', 6), spec_x('D', 4)),
        35 => Lane(spec_x('C', 7), spec_x('D', 5)),
        36 => Lane(spec_x('C', 8), spec_x('E', 4)),
        37 => Lane(spec_x('C', 9), spec_x('E', 5)),
        38 => Lane(spec_x('C', 10), spec_x('F', 4)),
        39 => Lane(spec_x('C', 11), spec_x('F', 5)),
        40 => Lane(spec_x('C', 12), spec_x('G', 4)),
        41 => Lane(spec_x('C', 13), spec_y('K', 2)),
        42 => Lane(spec_x('C', 14), spec_x('H', 4)),
        43 => Lane(spec_x('C', 15), spec_x('H', 5)),
        44 => Lane(spec_y('C', 0), spec_y('L', 2)),
        45 => Lane(spec_x('D', 6), spec_y('I', 3)),
        46 => Lane(spec_x('D', 7), spec_y('J', 3)),
        47 => Lane(spec_x('D', 8), spec_x('E', 6)),
        48 => Lane(spec_x('D', 9), spec_x('E', 7)),
        49 => Lane(spec_x('D', 10), spec_x('F', 6)),
        50 => Lane(spec_x('D', 11), spec_x('F', 7)),
        51 => Lane(spec_x('D', 12), spec_x('G', 6)),
        52 => Lane(spec_x('D', 13), spec_x('G', 7)),
        53 => Lane(spec_x('D', 14), spec_x('H', 6)),
        54 => Lane(spec_x('D', 15), spec_y('K', 3)),
        55 => Lane(spec_y('D', 0), spec_y('L', 3)),
        56 => Lane(spec_x('E', 1), spec_y('K', 4)),
        57 => Lane(spec_x('E', 8), spec_y('I', 4)),
        58 => Lane(spec_x('E', 9), spec_y('J', 4)),
        59 => Lane(spec_x('E', 10), spec_x('F', 8)),
        60 => Lane(spec_x('E', 11), spec_x('F', 9)),
        61 => Lane(spec_x('E', 12), spec_x('G', 8)),
        62 => Lane(spec_x('E', 13), spec_x('G', 9)),
        63 => Lane(spec_x('E', 14), spec_x('H', 8)),
        64 => Lane(spec_x('E', 15), spec_x('H', 9)),
        65 => Lane(spec_y('E', 0), spec_y('L', 4)),
        66 => Lane(spec_x('F', 3), spec_y('K', 5)),
        67 => Lane(spec_x('F', 10), spec_y('I', 5)),
        68 => Lane(spec_x('F', 11), spec_y('J', 5)),
        69 => Lane(spec_x('F', 12), spec_x('G', 10)),
        70 => Lane(spec_x('F', 13), spec_x('G', 11)),
        71 => Lane(spec_x('F', 14), spec_x('H', 10)),
        72 => Lane(spec_x('F', 15), spec_x('H', 11)),
        73 => Lane(spec_y('F', 0), spec_y('L', 5)),
        74 => Lane(spec_x('G', 5), spec_y('K', 6)),
        75 => Lane(spec_x('G', 12), spec_y('I', 6)),
        76 => Lane(spec_x('G', 13), spec_y('J', 6)),
        77 => Lane(spec_x('G', 14), spec_x('H', 12)),
        78 => Lane(spec_x('G', 15), spec_x('H', 13)),
        79 => Lane(spec_y('G', 0), spec_y('L', 6)),
        80 => Lane(spec_x('H', 7), spec_y('K', 7)),
        81 => Lane(spec_x('H', 14), spec_y('I', 7)),
        82 => Lane(spec_x('H', 15), spec_y('J', 7)),
        _ => Lane(spec_y('H', 0), spec_y('L', 7)),
    }
}

/// The lanes between the chips, in the order of preference.
pub open spec fn spec_lanes() -> Seq<Lane> {
    Seq::new(84, |position: int| spec_lane(position as usize))
}

/// The ports that are kept for bounces: there are none.
pub open spec fn spec_bounce_ports() -> Seq<Port> {
    Seq::empty()
}

/// The position, among the references of the wiring to ports, of the one
/// reference to the port with the given address.
pub open spec fn spec_user(address: usize) -> int {
    match address {
        0 => 120,
        1 => 122,
        2 => 124,
        3 => 126,
        4 => 128,
        5 => 130,
        6 => 132,
        7 => 134,
        8 => 136,
        9 => 138,
        10 => 140,
        11 => 142,
        12 => 144,
        13 => 146,
        14 => 148,
        15 => 150,
        16 => 152,
        17 => 1,
        18 => 2,
        19 => 3,
        20 => 4,
        21 => 5,
        22 => 6,
        23 => 7,
        24 => 125,
        25 => 127,
        26 => 154,
        27 => 156,
        28 => 158,
        29 => 160,
        30 => 162,
        31 => 164,
        32 => 166,
        33 => 168,
        34 => 170,
        35 => 172,
        36 => 174,
        37 => 176,
        38 => 178,
        39 => 180,
        40 => 182,
        41 => 8,
        42 => 9,
        43 => 10,
        44 => 11,
        45 => 12,
        46 => 13,
        47 => 14,
        48 => 129,
        49 => 131,
        50 => 159,
        51 => 161,
        52 => 184,
        53 => 186,
        54 => 188,
        55 => 190,
        56 => 192,
        57 => 194,
        58 => 196,
        59 => 198,
        60 => 200,
        61 => 202,
        62 => 204,
        63 => 206,
        64 => 208,
        65 => 15,
        66 => 16,
        67 => 17,
        68 => 18,
        69 => 19,
        70 => 20,
        71 => 21,
        72 => 133,
        73 => 135,
        74 => 163,
        75 => 165,
        76 => 189,
        77 => 191,
        78 => 210,
        79 => 212,
        80 => 214,
        81 => 216,
        82 => 218,
        83 => 220,
        84 => 222,
        85 => 224,
        86 => 226,
        87 => 228,
        88 => 230,
        89 => 22,
        90 => 23,
        91 => 24,
        92 => 25,
        93 => 26,
        94 => 27,
        95 => 28,
        96 => 137,
        97 => 232,
        98 => 167,
        99 => 169,
        100 => 193,
        101 => 195,
        102 => 215,
        103 => 217,
        104 => 234,
        105 => 236,
        106 => 238,
        107 => 240,
        108 => 242,
        109 => 244,
        110 => 246,
        111 => 248,
        112 => 250,
        113 => 31,
        114 => 32,
        115 => 33,
        116 => 34,
        117 => 35,
        118 => 36,
        119 => 37,
        120 => 141,
        121 => 143,
        122 => 171,
        123 => 252,
        124 => 197,
        125 => 199,
        126 => 219,
        127 => 221,
        128 => 239,
        129 => 241,
        130 => 254,
        131 => 256,
        132 => 258,
        133 => 260,
        134 => 262,
        135 => 264,
        136 => 266,
        137 => 38,
        138 => 39,
        139 => 40,
        140 => 41,
        141 => 42,
        142 => 43,
        143 => 44,
        144 => 145,
        145 => 147,
        146 => 175,
        147 => 177,
        148 => 201,
        149 => 268,
        150 => 223,
        151 => 225,
        152 => 243,
        153 => 245,
        154 => 259,
        155 => 261,
        156 => 270,
        157 => 272,
        158 => 274,
        159 => 276,
        160 => 278,
        161 => 45,
        162 => 46,
        163 => 47,
        164 => 48,
        165 => 49,
        166 => 50,
        167 => 51,
        168 => 149,
        169 => 151,
        170 => 179,
        171 => 181,
        172 => 205,
        173 => 207,
        174 => 227,
        175 => 280,
        176 => 247,
        177 => 249,
        178 => 263,
        179 => 265,
        180 => 275,
        181 => 277,
        182 => 282,
        183 => 284,
        184 => 286,
        185 => 52,
        186 => 53,
        187 => 54,
        188 => 55,
        189 => 56,
        190 => 57,
        191 => 58,
        192 => 60,
        193 => 61,
        194 => 62,
        195 => 63,
        196 => 64,
        197 => 65,
        198 => 66,
        199 => 67,
        200 => 68,
        201 => 69,
        202 => 70,
        203 => 71,
        204 => 72,
        205 => 82,
        206 => 83,
        207 => 84,
        208 => 121,
        209 => 155,
        210 => 185,
        211 => 211,
        212 => 235,
        213 => 255,
        214 => 271,
        215 => 283,
        216 => 85,
        217 => 86,
        218 => 87,
        219 => 88,
        220 => 89,
        221 => 90,
        222 => 91,
        223 => 92,
        224 => 93,
        225 => 94,
        226 => 95,
        227 => 96,
        228 => 75,
        229 => 78,
        230 => 97,
        231 => 98,
        232 => 123,
        233 => 157,
        234 => 187,
        235 => 213,
        236 => 237,
        237 => 257,
        238 => 273,
        239 => 285,
        240 => 99,
        241 => 100,
        242 => 101,
        243 => 102,
        244 => 103,
        245 => 104,
        246 => 105,
        247 => 106,
        248 => 107,
        249 => 108,
        250 => 109,
        251 => 110,
        252 => 111,
        253 => 112,
        254 => 113,
        255 => 80,
        256 => 139,
        257 => 173,
        258 => 203,
        259 => 229,
        260 => 233,
        261 => 253,
        262 => 269,
        263 => 281,
        264 => 114,
        265 => 115,
        266 => 76,
        267 => 77,
        268 => 79,
        269 => 81,
        270 => 74,
        271 => 73,
        272 => 0,
        273 => 29,
        274 => 30,
        275 => 59,
        276 => 116,
        277 => 117,
        278 => 118,
        279 => 119,
        280 => 153,
        281 => 183,
        282 => 209,
        283 => 231,
        284 => 251,
        285 => 267,
        286 => 279,
        _ => 287,
    }
}

/// The port of the reference at the given position: the ports of the
/// node-ports come first, then both ends of each lane, then the bounce ports.
pub open spec fn spec_use(position: int) -> Port {
    if position < 120 {
        spec_node_port(position as usize).1
    } else if (position - 120) % 2 == 0 {
        spec_lane(((position - 120) / 2) as usize).0
    } else {
        spec_lane(((position - 120) / 2) as usize).1
    }
}

/// Each node-port is wired to a port of the board, and is the reference that
/// the table gives for that port.
proof fn lemma_node_port_users()
    ensures
        forall|position: usize|
            position < 120 ==> (#[trigger] spec_node_port(position)).1.wf() && spec_user(
                spec_node_port(position).1.address() as usize,
            ) == position,
{
}

/// Each end of each lane is a port of the board, and is the reference that
/// the table gives for that port.
proof fn lemma_lane_users()
    ensures
        forall|position: usize|
            position < 84 ==> (#[trigger] spec_lane(position)).wf() && spec_user(
                spec_lane(position).0.address() as usize,
            ) == 120 + 2 * position && spec_user(spec_lane(position).1.address() as usize)
                == 120 + 2 * position + 1,
{
}

/// The reference that the table gives for a port is a reference to that port.
proof fn lemma_users_cover()
    ensures
        forall|address: usize|
            address < 288 ==> 0 <= #[trigger] spec_user(address) < 288 && spec_use(
                spec_user(address),
            ).address() == address,
{
}

/// Every port of the board is wired exactly once: to a node, as one end of a
/// lane, or as a bounce port.
pub proof fn lemma_wired_once()
    ensures
        crate::board_spec::repeated_uses(
            crate::board_spec::port_uses(spec_node_ports(), spec_lanes(), spec_bounce_ports()),
        ).len() == 0,
        crate::board_spec::unused_from(
            crate::board_spec::port_uses(
                spec_node_ports(),
                spec_lanes(),
                spec_bounce_ports(),
            ).to_set(),
            0,
        ).len() == 0,
        crate::joining::sound_wiring(spec_node_ports(), spec_lanes()),
{
    let uses = crate::board_spec::port_uses(spec_node_ports(), spec_lanes(), spec_bounce_ports());
    let user = |address: int| spec_user(address as usize);
    assert forall|position: int| 0 <= position < 288 implies #[trigger] uses[position] == spec_use(
        position,
    ) by {
        if 120 <= position < 288 {
            assert(uses[position] == crate::board_spec::lane_uses(spec_lanes())[position - 120]);
        }
    }
    lemma_node_port_users();
    lemma_lane_users();
    assert forall|position: int| 0 <= position < 288 implies (#[trigger] uses[position]).wf()
        && user(uses[position].address()) == position by {
        if position < 120 {
            assert(spec_node_port(position as usize).1.wf());
        } else if position < 288 {
            assert(spec_lane(((position - 120) / 2) as usize).wf());
        }
    }
    lemma_users_cover();
    assert forall|address: int| 0 <= address < 288 implies 0 <= #[trigger] user(address) < 288
        && uses[user(address)] == Port::from_address(address) by {
        let port = uses[user(address)];
        assert(port == spec_use(spec_user(address as usize)));
        port.lemma_address();
    }
    crate::board_spec::lemma_wired_once(spec_node_ports(), spec_lanes(), spec_bounce_ports(), user);
}

/// The port on the X edge of the chip with the given letter.
fn x(chip: char, index: u8) -> (r: Port)
    requires
        'A' <= chip <= 'L',
        index < 16,
    ensures
        r == spec_x(chip, index),
{
    Port::new(ChipId::from_ascii(chip as u8), Dimension::X, index)
}

/// The port on the Y edge of the chip with the given letter.
fn y(chip: char, index: u8) -> (r: Port)
    requires
        'A' <= chip <= 'L',
        index < 8,
    ensures
        r == spec_y(chip, index),
{
    Port::new(ChipId::from_ascii(chip as u8), Dimension::Y, index)
}

/// The ports that the nodes are wired to.
fn node_ports() -> (r: [crate::board_spec::NodePort<Node>; 120])
    ensures
        r@ == spec_node_ports(),
{
    let table = [
        crate::board_spec::NodePort(Node::_1, x('L', 8)),
        crate::board_spec::NodePort(Node::_2, y('A', 1)),
        crate::board_spec::NodePort(Node::_3, y('A', 2)),
        crate::board_spec::NodePort(Node::_4, y('A', 3)),
        crate::board_spec::NodePort(Node::_5, y('A', 4)),
        crate::board_spec::NodePort(Node::_6, y('A', 5)),
        crate::board_spec::NodePort(Node::_7, y('A', 6)),
        crate::board_spec::NodePort(Node::_8, y('A', 7)),
        crate::board_spec::NodePort(Node::_9, y('B', 1)),
        crate::board_spec::NodePort(Node::_10, y('B', 2)),
        crate::board_spec::NodePort(Node::_11, y('B', 3)),
        crate::board_spec::NodePort(Node::_12, y('B', 4)),
        crate::board_spec::NodePort(Node::_13, y('B', 5)),
        crate::board_spec::NodePort(Node::_14, y('B', 6)),
        crate::board_spec::NodePort(Node::_15, y('B', 7)),
        crate::board_spec::NodePort(Node::_16, y('C', 1)),
        crate::board_spec::NodePort(Node::_17, y('C', 2)),
        crate::board_spec::NodePort(Node::_18, y('C', 3)),
        crate::board_spec::NodePort(Node::_19, y('C', 4)),
        crate::board_spec::NodePort(Node::_20, y('C', 5)),
        crate::board_spec::NodePort(Node::_21, y('C', 6)),
        crate::board_spec::NodePort(Node::_22, y('C', 7)),
        crate::board_spec::NodePort(Node::_23, y('D', 1)),
        crate::board_spec::NodePort(Node::_24, y('D', 2)),
        crate::board_spec::NodePort(Node::_25, y('D', 3)),
        crate::board_spec::NodePort(Node::_26, y('D', 4)),
        crate::board_spec::NodePort(Node::_27, y('D', 5)),
        crate::board_spec::NodePort(Node::_28, y('D', 6)),
        crate::board_spec::NodePort(Node::_29, y('D', 7)),
        crate::board_spec::NodePort(Node::_30, x('L', 9)),
        crate::board_spec::NodePort(Node::_31, x('L', 10)),
        crate::board_spec::NodePort(Node::_32, y('E', 1)),
        crate::board_spec::NodePort(Node::_33, y('E', 2)),
        crate::board_spec::NodePort(Node::_34, y('E', 3)),
        crate::board_spec::NodePort(Node::_35, y('E', 4)),
        crate::board_spec::NodePort(Node::_36, y('E', 5)),
        crate::board_spec::NodePort(Node::_37, y('E', 6)),
        crate::board_spec::NodePort(Node::_38, y('E', 7)),
        crate::board_spec::NodePort(Node::_39, y('F', 1)),
        crate::board_spec::NodePort(Node::_40, y('F', 2)),
        crate::board_spec::NodePort(Node::_41, y('F', 3)),
        crate::board_spec::NodePort(Node::_42, y('F', 4)),
        crate::board_spec::NodePort(Node::_43, y('F', 5)),
        crate::board_spec::NodePort(Node::_44, y('F', 6)),
        crate::board_spec::NodePort(Node::_45, y('F', 7)),
        crate::board_spec::NodePort(Node::_46, y('G', 1)),
        crate::board_spec::NodePort(Node::_47, y('G', 2)),
        crate::board_spec::NodePort(Node::_48, y('G', 3)),
        crate::board_spec::NodePort(Node::_49, y('G', 4)),
        crate::board_spec::NodePort(Node::_50, y('G', 5)),
        crate::board_spec::NodePort(Node::_51, y('G', 6)),
        crate::board_spec::NodePort(Node::_52, y('G', 7)),
        crate::board_spec::NodePort(Node::_53, y('H', 1)),
        crate::board_spec::NodePort(Node::_54, y('H', 2)),
        crate::board_spec::NodePort(Node::_55, y('H', 3)),
        crate::board_spec::NodePort(Node::_56, y('H', 4)),
        crate::board_spec::NodePort(Node::_57, y('H', 5)),
        crate::board_spec::NodePort(Node::_58, y('H', 6)),
        crate::board_spec::NodePort(Node::_59, y('H', 7)),
        crate::board_spec::NodePort(Node::_60, x('L', 11)),
        crate::board_spec::NodePort(Node::NANO_A0, x('I', 0)),
        crate::board_spec::NodePort(Node::NANO_D1, x('I', 1)),
        crate::board_spec::NodePort(Node::NANO_A2, x('I', 2)),
        crate::board_spec::NodePort(Node::NANO_D3, x('I', 3)),
        crate::board_spec::NodePort(Node::NANO_A4, x('I', 4)),
        crate::board_spec::NodePort(Node::NANO_D5, x('I', 5)),
        crate::board_spec::NodePort(Node::NANO_A6, x('I', 6)),
        crate::board_spec::NodePort(Node::NANO_D7, x('I', 7)),
        crate::board_spec::NodePort(Node::NANO_D11, x('I', 8)),
        crate::board_spec::NodePort(Node::NANO_D9, x('I', 9)),
        crate::board_spec::NodePort(Node::NANO_D13, x('I', 10)),
        crate::board_spec::NodePort(Node::NANO_RESET, x('I', 11)),
        crate::board_spec::NodePort(Node::DAC0, x('I', 12)),
        crate::board_spec::NodePort(Node::DAC0, x('L', 7)),
        crate::board_spec::NodePort(Node::DAC1, x('L', 6)),
        crate::board_spec::NodePort(Node::DAC1, x('J', 12)),
        crate::board_spec::NodePort(Node::ADC0, x('L', 2)),
        crate::board_spec::NodePort(Node::ADC1, x('L', 3)),
        crate::board_spec::NodePort(Node::ADC1, x('J', 13)),
        crate::board_spec::NodePort(Node::ADC2, x('L', 4)),
        crate::board_spec::NodePort(Node::ADC2, x('K', 15)),
        crate::board_spec::NodePort(Node::ADC3, x('L', 5)),
        crate::board_spec::NodePort(Node::ADC0, x('I', 13)),
        crate::board_spec::NodePort(Node::SUPPLY_3V3, x('I', 14)),
        crate::board_spec::NodePort(Node::GND, x('I', 15)),
        crate::board_spec::NodePort(Node::NANO_D0, x('J', 0)),
        crate::board_spec::NodePort(Node::NANO_A1, x('J', 1)),
        crate::board_spec::NodePort(Node::NANO_D2, x('J', 2)),
        crate::board_spec::NodePort(Node::NANO_A3, x('J', 3)),
        crate::board_spec::NodePort(Node::NANO_D4, x('J', 4)),
        crate::board_spec::NodePort(Node::NANO_A5, x('J', 5)),
        crate::board_spec::NodePort(Node::NANO_D6, x('J', 6)),
        crate::board_spec::NodePort(Node::NANO_A7, x('J', 7)),
        crate::board_spec::NodePort(Node::NANO_D8, x('J', 8)),
        crate::board_spec::NodePort(Node::NANO_D10, x('J', 9)),
        crate::board_spec::NodePort(Node::NANO_D12, x('J', 10)),
        crate::board_spec::NodePort(Node::NANO_AREF, x('J', 11)),
        crate::board_spec::NodePort(Node::SUPPLY_5V, x('J', 14)),
        crate::board_spec::NodePort(Node::GND, x('J', 15)),
        crate::board_spec::NodePort(Node::NANO_A0, x('K', 0)),
        crate::board_spec::NodePort(Node::NANO_A1, x('K', 1)),
        crate::board_spec::NodePort(Node::NANO_A2, x('K', 2)),
        crate::board_spec::NodePort(Node::NANO_A3, x('K', 3)),
        crate::board_spec::NodePort(Node::NANO_D2, x('K', 4)),
        crate::board_spec::NodePort(Node::NANO_D3, x('K', 5)),
        crate::board_spec::NodePort(Node::NANO_D4, x('K', 6)),
        crate::board_spec::NodePort(Node::NANO_D5, x('K', 7)),
        crate::board_spec::NodePort(Node::NANO_D6, x('K', 8)),
        crate::board_spec::NodePort(Node::NANO_D7, x('K', 9)),
        crate::board_spec::NodePort(Node::NANO_D8, x('K', 10)),
        crate::board_spec::NodePort(Node::NANO_D9, x('K', 11)),
        crate::board_spec::NodePort(Node::NANO_D10, x('K', 12)),
        crate::board_spec::NodePort(Node::NANO_D11, x('K', 13)),
        crate::board_spec::NodePort(Node::NANO_D12, x('K', 14)),
        crate::board_spec::NodePort(Node::ISENSE_MINUS, x('L', 0)),
        crate::board_spec::NodePort(Node::ISENSE_PLUS, x('L', 1)),
        crate::board_spec::NodePort(Node::RP_UART_TX, x('L', 12)),
        crate::board_spec::NodePort(Node::RP_UART_RX, x('L', 13)),
        crate::board_spec::NodePort(Node::SUPPLY_5V, x('L', 14)),
        crate::board_spec::NodePort(Node::RP_GPIO0, x('L', 15)),
    ];
    proof {
        assert forall|position: int| 0 <= position < 120 implies table@[position] == spec_node_port(
            position as usize,
        ) by {}
        assert(table@ =~= spec_node_ports());
    }
    table
}

/// The lanes between the chips. Of several lanes that would do, the
/// router takes the first in this list.
fn lanes() -> (r: [Lane; 84])
    ensures
        r@ == spec_lanes(),
{
    let table = [
        Lane(x('A', 0), y('I', 0)),
        Lane(x('A', 1), y('J', 0)),
        Lane(x('A', 2), x('B', 0)),
        Lane(x('A', 3), x('B', 1)),
        Lane(x('A', 4), x('C', 0)),
        Lane(x('A', 5), x('C', 1)),
        Lane(x('A', 6), x('D', 0)),
        Lane(x('A', 7), x('D', 1)),
        Lane(x('A', 8), x('E', 0)),
        Lane(x('A', 9), y('K', 0)),
        Lane(x('A', 10), x('F', 0)),
        Lane(x('A', 11), x('F', 1)),
        Lane(x('A', 12), x('G', 0)),
        Lane(x('A', 13), x('G', 1)),
        Lane(x('A', 14), x('H', 0)),
        Lane(x('A', 15), x('H', 1)),
        Lane(y('A', 0), y('L', 0)),
        Lane(x('B', 2), y('I', 1)),
        Lane(x('B', 3), y('J', 1)),
        Lane(x('B', 4), x('C', 2)),
        Lane(x('B', 5), x('C', 3)),
        Lane(x('B', 6), x('D', 2)),
        Lane(x('B', 7), x('D', 3)),
        Lane(x('B', 8), x('E', 2)),
        Lane(x('B', 9), x('E', 3)),
        Lane(x('B', 10), x('F', 2)),
        Lane(x('B', 11), y('K', 1)),
        Lane(x('B', 12), x('G', 2)),
        Lane(x('B', 13), x('G', 3)),
        Lane(x('B', 14), x('H', 2)),
        Lane(x('B', 15), x('H', 3)),
        Lane(y('B', 0), y('L', 1)),
        Lane(x('C', 4), y('I', 2)),
        Lane(x('C', 5), y('J', 2)),
        Lane(x('C', 6), x('D', 4)),
        Lane(x('C', 7), x('D', 5)),
        Lane(x('C', 8), x('E', 4)),
        Lane(x('C', 9), x('E', 5)),
        Lane(x('C', 10), x('F', 4)),
        Lane(x('C', 11), x('F', 5)),
        Lane(x('C', 12), x('G', 4)),
        Lane(x('C', 13), y('K', 2)),
        Lane(x('C', 14), x('H', 4)),
        Lane(x('C', 15), x('H', 5)),
        Lane(y('C', 0), y('L', 2)),
        Lane(x('D', 6), y('I', 3)),
        Lane(x('D', 7), y('J', 3)),
        Lane(x('D', 8), x('E', 6)),
        Lane(x('D', 9), x('E', 7)),
        Lane(x('D', 10), x('F', 6)),
        Lane(x('D', 11), x('F', 7)),
        Lane(x('D', 12), x('G', 6)),
        Lane(x('D', 13), x('G', 7)),
        Lane(x('D', 14), x('H', 6)),
        Lane(x('D', 15), y('K', 3)),
        Lane(y('D', 0), y('L', 3)),
        Lane(x('E', 1), y('K', 4)),
        Lane(x('E', 8), y('I', 4)),
        Lane(x('E', 9), y('J', 4)),
        Lane(x('E', 10), x('F', 8)),
        Lane(x('E', 11), x('F', 9)),
        Lane(x('E', 12), x('G', 8)),
        Lane(x('E', 13), x('G', 9)),
        Lane(x('E', 14), x('H', 8)),
        Lane(x('E', 15), x('H', 9)),
        Lane(y('E', 0), y('L', 4)),
        Lane(x('F', 3), y('K', 5)),
        Lane(x('F', 10), y('I', 5)),
        Lane(x('F', 11), y('J', 5)),
        Lane(x('F', 12), x('G', 10)),
        Lane(x('F', 13), x('G', 11)),
        Lane(x('F', 14), x('H', 10)),
        Lane(x('F', 15), x('H', 11)),
        Lane(y('F', 0), y('L', 5)),
        Lane(x('G', 5), y('K', 6)),
        Lane(x('G', 12), y('I', 6)),
        Lane(x('G', 13), y('J', 6)),
        Lane(x('G', 14), x('H', 12)),
        Lane(x('G', 15), x('H', 13)),
        Lane(y('G', 0), y('L', 6)),
        Lane(x('H', 7), y('K', 7)),
        Lane(x('H', 14), y('I', 7)),
        Lane(x('H', 15), y('J', 7)),
        Lane(y('H', 0), y('L', 7)),
    ];
    proof {
        assert forall|position: int| 0 <= position < 84 implies table@[position] == spec_lane(
            position as usize,
        ) by {}
        assert(table@ =~= spec_lanes());
    }
    table
}

/// The ports that are kept for bounces.
fn bounce_ports() -> (r: [Port; 0])
    ensures
        r@ == spec_bounce_ports(),
{
    let table: [Port; 0] = [];
    proof {
        assert(table@ =~= spec_bounce_ports());
    }
    table
}

/// The wiring of the board.
pub fn board_spec() -> (r: BoardSpec)
    ensures
        r.node_ports@ == spec_node_ports(),
        r.lanes@ == spec_lanes(),
        r.bounce_ports@ == spec_bounce_ports(),
        crate::joining::sound_wiring(r.node_ports@, r.lanes@),
{
    proof {
        lemma_wired_once();
    }
    BoardSpec { node_ports: node_ports(), lanes: lanes(), bounce_ports: bounce_ports() }
}

/// The board, ready for routing.
pub fn init_board() -> (r: Board)
    ensures
        r.spec_node_ports() == spec_node_ports(),
        r.spec_lanes() == spec_lanes(),
        r.spec_bounce_ports() == spec_bounce_ports(),
        crate::joining::sound_wiring(r.spec_node_ports(), r.spec_lanes()),
{
    Board::new(board_spec())
}

/// The netlist at power-up: the special nets, each with its one node and
/// the color in which it is shown.
pub fn default_nets() -> (r: crate::nets::Nets<Node>)
    ensures
        r.spec_supply_switch_pos() == crate::nets::SupplySwitchPos::_5V,
        r.count() == 7,
        forall|i: int| 0 <= i < 7 ==> (#[trigger] r.id_at(i)).spec_index() == i,
        r.spec_nets()[0].nodes@ == set![Node::GND],
        r.spec_colors()[0] == crate::nets::Rgb(0x00, 0x1c, 0x04),
        r.spec_nets()[1].nodes@ == set![Node::SUPPLY_5V],
        r.spec_colors()[1] == crate::nets::Rgb(0x1c, 0x07, 0x02),
        r.spec_nets()[2].nodes@ == set![Node::SUPPLY_3V3],
        r.spec_colors()[2] == crate::nets::Rgb(0x1c, 0x01, 0x07),
        r.spec_nets()[3].nodes@ == set![Node::DAC0],
        r.spec_colors()[3] == crate::nets::Rgb(0x23, 0x11, 0x11),
        r.spec_nets()[4].nodes@ == set![Node::DAC1],
        r.spec_colors()[4] == crate::nets::Rgb(0x23, 0x09, 0x13),
        r.spec_nets()[5].nodes@ == set![Node::ISENSE_PLUS],
        r.spec_colors()[5] == crate::nets::Rgb(0x23, 0x23, 0x23),
        r.spec_nets()[6].nodes@ == set![Node::ISENSE_MINUS],
        r.spec_colors()[6] == crate::nets::Rgb(0x23, 0x23, 0x23),
{
    let mut nets = crate::nets::Nets::new();
    let nodes = [Node::GND];
    proof {
        assert(nodes@.to_set() =~= set![Node::GND]) by {
            assert(nodes@[0] == Node::GND);
        }
    }
    nets.add_net(nodes.as_slice(), crate::nets::Rgb(0x00, 0x1c, 0x04));
    let nodes = [Node::SUPPLY_5V];
    proof {
        assert(nodes@.to_set() =~= set![Node::SUPPLY_5V]) by {
            assert(nodes@[0] == Node::SUPPLY_5V);
        }
    }
    nets.add_net(nodes.as_slice(), crate::nets::Rgb(0x1c, 0x07, 0x02));
    let nodes = [Node::SUPPLY_3V3];
    proof {
        assert(nodes@.to_set() =~= set![Node::SUPPLY_3V3]) by {
            assert(nodes@[0] == Node::SUPPLY_3V3);
        }
    }
    nets.add_net(nodes.as_slice(), crate::nets::Rgb(0x1c, 0x01, 0x07));
    let nodes = [Node::DAC0];
    proof {
        assert(nodes@.to_set() =~= set![Node::DAC0]) by {
            assert(nodes@[0] == Node::DAC0);
        }
    }
    nets.add_net(nodes.as_slice(), crate::nets::Rgb(0x23, 0x11, 0x11));
    let nodes = [Node::DAC1];
    proof {
        assert(nodes@.to_set() =~= set![Node::DAC1]) by {
            assert(nodes@[0] == Node::DAC1);
        }
    }
    nets.add_net(nodes.as_slice(), crate::nets::Rgb(0x23, 0x09, 0x13));
    let nodes = [Node::ISENSE_PLUS];
    proof {
        assert(nodes@.to_set() =~= set![Node::ISENSE_PLUS]) by {
            assert(nodes@[0] == Node::ISENSE_PLUS);
        }
    }
    nets.add_net(nodes.as_slice(), crate::nets::Rgb(0x23, 0x23, 0x23));
    let nodes = [Node::ISENSE_MINUS];
    proof {
        assert(nodes@.to_set() =~= set![Node::ISENSE_MINUS]) by {
            assert(nodes@[0] == Node::ISENSE_MINUS);
        }
    }
    nets.add_net(nodes.as_slice(), crate::nets::Rgb(0x23, 0x23, 0x23));
    nets
}

} // verus!
