//! The wiring of revision 5 of the board.

use vstd::prelude::*;

use crate::chip_id::ChipId;
use crate::dimension::Dimension;
use crate::lane::Lane;
use crate::port::Port;
use vstd::string::StringSliceAdditionalSpecFns;

verus! {

/// The nodes of the board: the rows of the breadboard by their numbers, and
/// the other connection points by their names.
#[allow(non_camel_case_types)]
#[derive(Copy, Clone, Debug, PartialEq, Eq)]
pub enum Node {
    GND,
    SUPPLY_5v,
    _1,
    _2,
    _3,
    _4,
    _5,
    _6,
    _7,
    _8,
    _9,
    _10,
    _11,
    _12,
    _13,
    _14,
    _15,
    _16,
    _17,
    _18,
    _19,
    _20,
    _21,
    _22,
    _23,
    _24,
    _25,
    _26,
    _27,
    _28,
    _29,
    _30,
    _31,
    _32,
    _33,
    _34,
    _35,
    _36,
    _37,
    _38,
    _39,
    _40,
    _41,
    _42,
    _43,
    _44,
    _45,
    _46,
    _47,
    _48,
    _49,
    _50,
    _51,
    _52,
    _53,
    _54,
    _55,
    _56,
    _57,
    _58,
    _59,
    _60,
    NANO_D0,
    NANO_D1,
    NANO_D2,
    NANO_D3,
    NANO_D4,
    NANO_D5,
    NANO_D6,
    NANO_D7,
    NANO_D8,
    NANO_D9,
    NANO_D10,
    NANO_D11,
    NANO_D12,
    NANO_D13,
    NANO_A0,
    NANO_A1,
    NANO_A2,
    NANO_A3,
    NANO_A4,
    NANO_A5,
    NANO_A6,
    NANO_A7,
    RP_UART_RX,
    RP_UART_TX,
    ISENSE_PLUS,
    ISENSE_MINUS,
    TOP_RAIL,
    BOTTOM_RAIL,
    DAC1,
    DAC0,
    ADC0,
    ADC1,
    ADC2,
    ADC3,
    NANO_RESET_J0,
    NANO_RESET_J1,
    NANO_AREF,
    GPIO_20,
    GPIO_21,
    GPIO_22,
    GPIO_23,
    GPIO_MCP_0,
    GPIO_MCP_1,
    GPIO_MCP_2,
    GPIO_MCP_3,
}

/// How many nodes the board has.
pub const NODE_COUNT: u8 = 107;

impl crate::node::Node for Node {
    open spec fn spec_id(&self) -> u8 {
        match self {
            Node::GND => 0,
            Node::SUPPLY_5v => 1,
            Node::_1 => 2,
            Node::_2 => 3,
            Node::_3 => 4,
            Node::_4 => 5,
            Node::_5 => 6,
            Node::_6 => 7,
            Node::_7 => 8,
            Node::_8 => 9,
            Node::_9 => 10,
            Node::_10 => 11,
            Node::_11 => 12,
            Node::_12 => 13,
            Node::_13 => 14,
            Node::_14 => 15,
            Node::_15 => 16,
            Node::_16 => 17,
            Node::_17 => 18,
            Node::_18 => 19,
            Node::_19 => 20,
            Node::_20 => 21,
            Node::_21 => 22,
            Node::_22 => 23,
            Node::_23 => 24,
            Node::_24 => 25,
            Node::_25 => 26,
            Node::_26 => 27,
            Node::_27 => 28,
            Node::_28 => 29,
            Node::_29 => 30,
            Node::_30 => 31,
            Node::_31 => 32,
            Node::_32 => 33,
            Node::_33 => 34,
            Node::_34 => 35,
            Node::_35 => 36,
            Node::_36 => 37,
            Node::_37 => 38,
            Node::_38 => 39,
            Node::_39 => 40,
            Node::_40 => 41,
            Node::_41 => 42,
            Node::_42 => 43,
            Node::_43 => 44,
            Node::_44 => 45,
            Node::_45 => 46,
            Node::_46 => 47,
            Node::_47 => 48,
            Node::_48 => 49,
            Node::_49 => 50,
            Node::_50 => 51,
            Node::_51 => 52,
            Node::_52 => 53,
            Node::_53 => 54,
            Node::_54 => 55,
            Node::_55 => 56,
            Node::_56 => 57,
            Node::_57 => 58,
            Node::_58 => 59,
            Node::_59 => 60,
            Node::_60 => 61,
            Node::NANO_D0 => 62,
            Node::NANO_D1 => 63,
            Node::NANO_D2 => 64,
            Node::NANO_D3 => 65,
            Node::NANO_D4 => 66,
            Node::NANO_D5 => 67,
            Node::NANO_D6 => 68,
            Node::NANO_D7 => 69,
            Node::NANO_D8 => 70,
            Node::NANO_D9 => 71,
            Node::NANO_D10 => 72,
            Node::NANO_D11 => 73,
            Node::NANO_D12 => 74,
            Node::NANO_D13 => 75,
            Node::NANO_A0 => 76,
            Node::NANO_A1 => 77,
            Node::NANO_A2 => 78,
            Node::NANO_A3 => 79,
            Node::NANO_A4 => 80,
            Node::NANO_A5 => 81,
            Node::NANO_A6 => 82,
            Node::NANO_A7 => 83,
            Node::RP_UART_RX => 84,
            Node::RP_UART_TX => 85,
            Node::ISENSE_PLUS => 86,
            Node::ISENSE_MINUS => 87,
            Node::TOP_RAIL => 88,
            Node::BOTTOM_RAIL => 89,
            Node::DAC1 => 90,
            Node::DAC0 => 91,
            Node::ADC0 => 92,
            Node::ADC1 => 93,
            Node::ADC2 => 94,
            Node::ADC3 => 95,
            Node::NANO_RESET_J0 => 96,
            Node::NANO_RESET_J1 => 97,
            Node::NANO_AREF => 98,
            Node::GPIO_20 => 99,
            Node::GPIO_21 => 100,
            Node::GPIO_22 => 101,
            Node::GPIO_23 => 102,
            Node::GPIO_MCP_0 => 103,
            Node::GPIO_MCP_1 => 104,
            Node::GPIO_MCP_2 => 105,
            Node::GPIO_MCP_3 => 106,
        }
    }

    open spec fn valid_id(id: u8) -> bool {
        id < NODE_COUNT
    }

    fn id(&self) -> (r: u8) {
        match self {
            Node::GND => 0,
            Node::SUPPLY_5v => 1,
            Node::_1 => 2,
            Node::_2 => 3,
            Node::_3 => 4,
            Node::_4 => 5,
            Node::_5 => 6,
            Node::_6 => 7,
            Node::_7 => 8,
            Node::_8 => 9,
            Node::_9 => 10,
            Node::_10 => 11,
            Node::_11 => 12,
            Node::_12 => 13,
            Node::_13 => 14,
            Node::_14 => 15,
            Node::_15 => 16,
            Node::_16 => 17,
            Node::_17 => 18,
            Node::_18 => 19,
            Node::_19 => 20,
            Node::_20 => 21,
            Node::_21 => 22,
            Node::_22 => 23,
            Node::_23 => 24,
            Node::_24 => 25,
            Node::_25 => 26,
            Node::_26 => 27,
            Node::_27 => 28,
            Node::_28 => 29,
            Node::_29 => 30,
            Node::_30 => 31,
            Node::_31 => 32,
            Node::_32 => 33,
            Node::_33 => 34,
            Node::_34 => 35,
            Node::_35 => 36,
            Node::_36 => 37,
            Node::_37 => 38,
            Node::_38 => 39,
            Node::_39 => 40,
            Node::_40 => 41,
            Node::_41 => 42,
            Node::_42 => 43,
            Node::_43 => 44,
            Node::_44 => 45,
            Node::_45 => 46,
            Node::_46 => 47,
            Node::_47 => 48,
            Node::_48 => 49,
            Node::_49 => 50,
            Node::_50 => 51,
            Node::_51 => 52,
            Node::_52 => 53,
            Node::_53 => 54,
            Node::_54 => 55,
            Node::_55 => 56,
            Node::_56 => 57,
            Node::_57 => 58,
            Node::_58 => 59,
            Node::_59 => 60,
            Node::_60 => 61,
            Node::NANO_D0 => 62,
            Node::NANO_D1 => 63,
            Node::NANO_D2 => 64,
            Node::NANO_D3 => 65,
            Node::NANO_D4 => 66,
            Node::NANO_D5 => 67,
            Node::NANO_D6 => 68,
            Node::NANO_D7 => 69,
            Node::NANO_D8 => 70,
            Node::NANO_D9 => 71,
            Node::NANO_D10 => 72,
            Node::NANO_D11 => 73,
            Node::NANO_D12 => 74,
            Node::NANO_D13 => 75,
            Node::NANO_A0 => 76,
            Node::NANO_A1 => 77,
            Node::NANO_A2 => 78,
            Node::NANO_A3 => 79,
            Node::NANO_A4 => 80,
            Node::NANO_A5 => 81,
            Node::NANO_A6 => 82,
            Node::NANO_A7 => 83,
            Node::RP_UART_RX => 84,
            Node::RP_UART_TX => 85,
            Node::ISENSE_PLUS => 86,
            Node::ISENSE_MINUS => 87,
            Node::TOP_RAIL => 88,
            Node::BOTTOM_RAIL => 89,
            Node::DAC1 => 90,
            Node::DAC0 => 91,
            Node::ADC0 => 92,
            Node::ADC1 => 93,
            Node::ADC2 => 94,
            Node::ADC3 => 95,
            Node::NANO_RESET_J0 => 96,
            Node::NANO_RESET_J1 => 97,
            Node::NANO_AREF => 98,
            Node::GPIO_20 => 99,
            Node::GPIO_21 => 100,
            Node::GPIO_22 => 101,
            Node::GPIO_23 => 102,
            Node::GPIO_MCP_0 => 103,
            Node::GPIO_MCP_1 => 104,
            Node::GPIO_MCP_2 => 105,
            Node::GPIO_MCP_3 => 106,
        }
    }

    fn from_id(id: u8) -> (r: Self) {
        match id {
            0 => Node::GND,
            1 => Node::SUPPLY_5v,
            2 => Node::_1,
            3 => Node::_2,
            4 => Node::_3,
            5 => Node::_4,
            6 => Node::_5,
            7 => Node::_6,
            8 => Node::_7,
            9 => Node::_8,
            10 => Node::_9,
            11 => Node::_10,
            12 => Node::_11,
            13 => Node::_12,
            14 => Node::_13,
            15 => Node::_14,
            16 => Node::_15,
            17 => Node::_16,
            18 => Node::_17,
            19 => Node::_18,
            20 => Node::_19,
            21 => Node::_20,
            22 => Node::_21,
            23 => Node::_22,
            24 => Node::_23,
            25 => Node::_24,
            26 => Node::_25,
            27 => Node::_26,
            28 => Node::_27,
            29 => Node::_28,
            30 => Node::_29,
            31 => Node::_30,
            32 => Node::_31,
            33 => Node::_32,
            34 => Node::_33,
            35 => Node::_34,
            36 => Node::_35,
            37 => Node::_36,
            38 => Node::_37,
            39 => Node::_38,
            40 => Node::_39,
            41 => Node::_40,
            42 => Node::_41,
            43 => Node::_42,
            44 => Node::_43,
            45 => Node::_44,
            46 => Node::_45,
            47 => Node::_46,
            48 => Node::_47,
            49 => Node::_48,
            50 => Node::_49,
            51 => Node::_50,
            52 => Node::_51,
            53 => Node::_52,
            54 => Node::_53,
            55 => Node::_54,
            56 => Node::_55,
            57 => Node::_56,
            58 => Node::_57,
            59 => Node::_58,
            60 => Node::_59,
            61 => Node::_60,
            62 => Node::NANO_D0,
            63 => Node::NANO_D1,
            64 => Node::NANO_D2,
            65 => Node::NANO_D3,
            66 => Node::NANO_D4,
            67 => Node::NANO_D5,
            68 => Node::NANO_D6,
            69 => Node::NANO_D7,
            70 => Node::NANO_D8,
            71 => Node::NANO_D9,
            72 => Node::NANO_D10,
            73 => Node::NANO_D11,
            74 => Node::NANO_D12,
            75 => Node::NANO_D13,
            76 => Node::NANO_A0,
            77 => Node::NANO_A1,
            78 => Node::NANO_A2,
            79 => Node::NANO_A3,
            80 => Node::NANO_A4,
            81 => Node::NANO_A5,
            82 => Node::NANO_A6,
            83 => Node::NANO_A7,
            84 => Node::RP_UART_RX,
            85 => Node::RP_UART_TX,
            86 => Node::ISENSE_PLUS,
            87 => Node::ISENSE_MINUS,
            88 => Node::TOP_RAIL,
            89 => Node::BOTTOM_RAIL,
            90 => Node::DAC1,
            91 => Node::DAC0,
            92 => Node::ADC0,
            93 => Node::ADC1,
            94 => Node::ADC2,
            95 => Node::ADC3,
            96 => Node::NANO_RESET_J0,
            97 => Node::NANO_RESET_J1,
            98 => Node::NANO_AREF,
            99 => Node::GPIO_20,
            100 => Node::GPIO_21,
            101 => Node::GPIO_22,
            102 => Node::GPIO_23,
            103 => Node::GPIO_MCP_0,
            104 => Node::GPIO_MCP_1,
            105 => Node::GPIO_MCP_2,
            _ => Node::GPIO_MCP_3,
        }
    }

    proof fn lemma_id_injective(a: Self, b: Self) {
    }
}

impl Node {
    /// The name of the node, as the description of the board gives it.
    pub open spec fn spec_name(&self) -> Seq<char> {
        match self {
            Node::GND => "GND"@,
            Node::SUPPLY_5v => "SUPPLY_5v"@,
            Node::_1 => "1"@,
            Node::_2 => "2"@,
            Node::_3 => "3"@,
            Node::_4 => "4"@,
            Node::_5 => "5"@,
            Node::_6 => "6"@,
            Node::_7 => "7"@,
            Node::_8 => "8"@,
            Node::_9 => "9"@,
            Node::_10 => "10"@,
            Node::_11 => "11"@,
            Node::_12 => "12"@,
            Node::_13 => "13"@,
            Node::_14 => "14"@,
            Node::_15 => "15"@,
            Node::_16 => "16"@,
            Node::_17 => "17"@,
            Node::_18 => "18"@,
            Node::_19 => "19"@,
            Node::_20 => "20"@,
            Node::_21 => "21"@,
            Node::_22 => "22"@,
            Node::_23 => "23"@,
            Node::_24 => "24"@,
            Node::_25 => "25"@,
            Node::_26 => "26"@,
            Node::_27 => "27"@,
            Node::_28 => "28"@,
            Node::_29 => "29"@,
            Node::_30 => "30"@,
            Node::_31 => "31"@,
            Node::_32 => "32"@,
            Node::_33 => "33"@,
            Node::_34 => "34"@,
            Node::_35 => "35"@,
            Node::_36 => "36"@,
            Node::_37 => "37"@,
            Node::_38 => "38"@,
            Node::_39 => "39"@,
            Node::_40 => "40"@,
            Node::_41 => "41"@,
            Node::_42 => "42"@,
            Node::_43 => "43"@,
            Node::_44 => "44"@,
            Node::_45 => "45"@,
            Node::_46 => "46"@,
            Node::_47 => "47"@,
            Node::_48 => "48"@,
            Node::_49 => "49"@,
            Node::_50 => "50"@,
            Node::_51 => "51"@,
            Node::_52 => "52"@,
            Node::_53 => "53"@,
            Node::_54 => "54"@,
            Node::_55 => "55"@,
            Node::_56 => "56"@,
            Node::_57 => "57"@,
            Node::_58 => "58"@,
            Node::_59 => "59"@,
            Node::_60 => "60"@,
            Node::NANO_D0 => "NANO_D0"@,
            Node::NANO_D1 => "NANO_D1"@,
            Node::NANO_D2 => "NANO_D2"@,
            Node::NANO_D3 => "NANO_D3"@,
            Node::NANO_D4 => "NANO_D4"@,
            Node::NANO_D5 => "NANO_D5"@,
            Node::NANO_D6 => "NANO_D6"@,
            Node::NANO_D7 => "NANO_D7"@,
            Node::NANO_D8 => "NANO_D8"@,
            Node::NANO_D9 => "NANO_D9"@,
            Node::NANO_D10 => "NANO_D10"@,
            Node::NANO_D11 => "NANO_D11"@,
            Node::NANO_D12 => "NANO_D12"@,
            Node::NANO_D13 => "NANO_D13"@,
            Node::NANO_A0 => "NANO_A0"@,
            Node::NANO_A1 => "NANO_A1"@,
            Node::NANO_A2 => "NANO_A2"@,
            Node::NANO_A3 => "NANO_A3"@,
            Node::NANO_A4 => "NANO_A4"@,
            Node::NANO_A5 => "NANO_A5"@,
            Node::NANO_A6 => "NANO_A6"@,
            Node::NANO_A7 => "NANO_A7"@,
            Node::RP_UART_RX => "RP_UART_RX"@,
            Node::RP_UART_TX => "RP_UART_TX"@,
            Node::ISENSE_PLUS => "ISENSE_PLUS"@,
            Node::ISENSE_MINUS => "ISENSE_MINUS"@,
            Node::TOP_RAIL => "TOP_RAIL"@,
            Node::BOTTOM_RAIL => "BOTTOM_RAIL"@,
            Node::DAC1 => "DAC1"@,
            Node::DAC0 => "DAC0"@,
            Node::ADC0 => "ADC0"@,
            Node::ADC1 => "ADC1"@,
            Node::ADC2 => "ADC2"@,
            Node::ADC3 => "ADC3"@,
            Node::NANO_RESET_J0 => "NANO_RESET_J0"@,
            Node::NANO_RESET_J1 => "NANO_RESET_J1"@,
            Node::NANO_AREF => "NANO_AREF"@,
            Node::GPIO_20 => "GPIO_20"@,
            Node::GPIO_21 => "GPIO_21"@,
            Node::GPIO_22 => "GPIO_22"@,
            Node::GPIO_23 => "GPIO_23"@,
            Node::GPIO_MCP_0 => "GPIO_MCP_0"@,
            Node::GPIO_MCP_1 => "GPIO_MCP_1"@,
            Node::GPIO_MCP_2 => "GPIO_MCP_2"@,
            Node::GPIO_MCP_3 => "GPIO_MCP_3"@,
        }
    }

    /// The name of the node.
    pub fn as_str(&self) -> (r: &'static str)
        ensures
            r@ == self.spec_name(),
    {
        match self {
            Node::GND => "GND",
            Node::SUPPLY_5v => "SUPPLY_5v",
            Node::_1 => "1",
            Node::_2 => "2",
            Node::_3 => "3",
            Node::_4 => "4",
            Node::_5 => "5",
            Node::_6 => "6",
            Node::_7 => "7",
            Node::_8 => "8",
            Node::_9 => "9",
            Node::_10 => "10",
            Node::_11 => "11",
            Node::_12 => "12",
            Node::_13 => "13",
            Node::_14 => "14",
            Node::_15 => "15",
            Node::_16 => "16",
            Node::_17 => "17",
            Node::_18 => "18",
            Node::_19 => "19",
            Node::_20 => "20",
            Node::_21 => "21",
            Node::_22 => "22",
            Node::_23 => "23",
            Node::_24 => "24",
            Node::_25 => "25",
            Node::_26 => "26",
            Node::_27 => "27",
            Node::_28 => "28",
            Node::_29 => "29",
            Node::_30 => "30",
            Node::_31 => "31",
            Node::_32 => "32",
            Node::_33 => "33",
            Node::_34 => "34",
            Node::_35 => "35",
            Node::_36 => "36",
            Node::_37 => "37",
            Node::_38 => "38",
            Node::_39 => "39",
            Node::_40 => "40",
            Node::_41 => "41",
            Node::_42 => "42",
            Node::_43 => "43",
            Node::_44 => "44",
            Node::_45 => "45",
            Node::_46 => "46",
            Node::_47 => "47",
            Node::_48 => "48",
            Node::_49 => "49",
            Node::_50 => "50",
            Node::_51 => "51",
            Node::_52 => "52",
            Node::_53 => "53",
            Node::_54 => "54",
            Node::_55 => "55",
            Node::_56 => "56",
            Node::_57 => "57",
            Node::_58 => "58",
            Node::_59 => "59",
            Node::_60 => "60",
            Node::NANO_D0 => "NANO_D0",
            Node::NANO_D1 => "NANO_D1",
            Node::NANO_D2 => "NANO_D2",
            Node::NANO_D3 => "NANO_D3",
            Node::NANO_D4 => "NANO_D4",
            Node::NANO_D5 => "NANO_D5",
            Node::NANO_D6 => "NANO_D6",
            Node::NANO_D7 => "NANO_D7",
            Node::NANO_D8 => "NANO_D8",
            Node::NANO_D9 => "NANO_D9",
            Node::NANO_D10 => "NANO_D10",
            Node::NANO_D11 => "NANO_D11",
            Node::NANO_D12 => "NANO_D12",
            Node::NANO_D13 => "NANO_D13",
            Node::NANO_A0 => "NANO_A0",
            Node::NANO_A1 => "NANO_A1",
            Node::NANO_A2 => "NANO_A2",
            Node::NANO_A3 => "NANO_A3",
            Node::NANO_A4 => "NANO_A4",
            Node::NANO_A5 => "NANO_A5",
            Node::NANO_A6 => "NANO_A6",
            Node::NANO_A7 => "NANO_A7",
            Node::RP_UART_RX => "RP_UART_RX",
            Node::RP_UART_TX => "RP_UART_TX",
            Node::ISENSE_PLUS => "ISENSE_PLUS",
            Node::ISENSE_MINUS => "ISENSE_MINUS",
            Node::TOP_RAIL => "TOP_RAIL",
            Node::BOTTOM_RAIL => "BOTTOM_RAIL",
            Node::DAC1 => "DAC1",
            Node::DAC0 => "DAC0",
            Node::ADC0 => "ADC0",
            Node::ADC1 => "ADC1",
            Node::ADC2 => "ADC2",
            Node::ADC3 => "ADC3",
            Node::NANO_RESET_J0 => "NANO_RESET_J0",
            Node::NANO_RESET_J1 => "NANO_RESET_J1",
            Node::NANO_AREF => "NANO_AREF",
            Node::GPIO_20 => "GPIO_20",
            Node::GPIO_21 => "GPIO_21",
            Node::GPIO_22 => "GPIO_22",
            Node::GPIO_23 => "GPIO_23",
            Node::GPIO_MCP_0 => "GPIO_MCP_0",
            Node::GPIO_MCP_1 => "GPIO_MCP_1",
            Node::GPIO_MCP_2 => "GPIO_MCP_2",
            Node::GPIO_MCP_3 => "GPIO_MCP_3",
        }
    }
}

/// The text is not the name of a node.
#[derive(Debug, PartialEq, Eq)]
pub struct InvalidNode;

impl crate::node::NamedNode for Node {
    open spec fn name_bytes(&self) -> Seq<u8> {
        vstd::utf8::encode_utf8(self.spec_name())
    }

    fn from_name(name: &[u8]) -> (r: Option<Node>) {
        let mut id: u8 = 0;
        while id < NODE_COUNT
            invariant
                id <= NODE_COUNT,
                forall|node: Node|
                    crate::node::Node::spec_id(&node) < id ==> #[trigger] crate::node::NamedNode::name_bytes(
                        &node,
                    ) != name@,
            decreases NODE_COUNT - id,
        {
            let node = <Node as crate::node::Node>::from_id(id);
            if crate::text::same_bytes(node.as_str().as_bytes(), name) {
                return Some(node);
            }
            proof {
                assert forall|other: Node|
                    crate::node::Node::spec_id(&other) < id
                        + 1 implies #[trigger] crate::node::NamedNode::name_bytes(&other)
                    != name@ by {
                    if crate::node::Node::spec_id(&other) == id {
                        <Node as crate::node::Node>::lemma_id_injective(other, node);
                    }
                }
            }
            id += 1;
        }
        None
    }
}

impl core::str::FromStr for Node {
    type Err = InvalidNode;

    /// The node with the given name.
    fn from_str(s: &str) -> (r: Result<Self, Self::Err>)
        ensures
            match r {
                Ok(node) => node.spec_name() == s@,
                Err(_) => forall|node: Node| #[trigger] node.spec_name() != s@,
            },
    {
        proof {
            vstd::utf8::encode_utf8_decode_utf8(s@);
            assert forall|node: Node|
                (#[trigger] node.spec_name() == s@) == (crate::node::NamedNode::name_bytes(&node)
                    == s.spec_bytes()) by {
                vstd::utf8::encode_utf8_decode_utf8(node.spec_name());
            }
        }
        match <Node as crate::node::NamedNode>::from_name(s.as_bytes()) {
            Some(node) => Ok(node),
            None => Err(InvalidNode),
        }
    }
}

pub type BoardSpec = crate::board_spec::BoardSpec<Node, 108, 86, 8>;

pub type Board = crate::board::Board<Node, 108, 86, 8>;

/// The port on the X edge of the chip with the given letter.
pub open spec fn spec_x(chip: char, index: u8) -> Port {
    Port::spec_new(ChipId::spec_from_index(chip as u8 - 65), Dimension::X, index)
}

/// The port on the Y edge of the chip with the given letter.
pub open spec fn spec_y(chip: char, index: u8) -> Port {
    Port::spec_new(ChipId::spec_from_index(chip as u8 - 65), Dimension::Y, index)
}

/// The node-port at the given position of the list: a node, and a port that
/// it is wired to.
pub open spec fn spec_node_port(position: usize) -> crate::board_spec::NodePort<Node> {
    match position {
        0 => crate::board_spec::NodePort(Node::GND, spec_x('L', 15)),
        1 => crate::board_spec::NodePort(Node::GND, spec_x('K', 15)),
        2 => crate::board_spec::NodePort(Node::SUPPLY_5v, spec_x('L', 0)),
        3 => crate::board_spec::NodePort(Node::_1, spec_x('K', 0)),
        4 => crate::board_spec::NodePort(Node::_2, spec_y('A', 1)),
        5 => crate::board_spec::NodePort(Node::_3, spec_y('A', 2)),
        6 => crate::board_spec::NodePort(Node::_4, spec_y('A', 3)),
        7 => crate::board_spec::NodePort(Node::_5, spec_y('A', 4)),
        8 => crate::board_spec::NodePort(Node::_6, spec_y('A', 5)),
        9 => crate::board_spec::NodePort(Node::_7, spec_y('A', 6)),
        10 => crate::board_spec::NodePort(Node::_8, spec_y('A', 7)),
        11 => crate::board_spec::NodePort(Node::_9, spec_y('B', 1)),
        12 => crate::board_spec::NodePort(Node::_10, spec_y('B', 2)),
        13 => crate::board_spec::NodePort(Node::_11, spec_y('B', 3)),
        14 => crate::board_spec::NodePort(Node::_12, spec_y('B', 4)),
        15 => crate::board_spec::NodePort(Node::_13, spec_y('B', 5)),
        16 => crate::board_spec::NodePort(Node::_14, spec_y('B', 6)),
        17 => crate::board_spec::NodePort(Node::_15, spec_y('B', 7)),
        18 => crate::board_spec::NodePort(Node::_16, spec_y('C', 1)),
        19 => crate::board_spec::NodePort(Node::_17, spec_y('C', 2)),
        20 => crate::board_spec::NodePort(Node::_18, spec_y('C', 3)),
        21 => crate::board_spec::NodePort(Node::_19, spec_y('C', 4)),
        22 => crate::board_spec::NodePort(Node::_20, spec_y('C', 5)),
        23 => crate::board_spec::NodePort(Node::_21, spec_y('C', 6)),
        24 => crate::board_spec::NodePort(Node::_22, spec_y('C', 7)),
        25 => crate::board_spec::NodePort(Node::_23, spec_y('D', 1)),
        26 => crate::board_spec::NodePort(Node::_24, spec_y('D', 2)),
        27 => crate::board_spec::NodePort(Node::_25, spec_y('D', 3)),
        28 => crate::board_spec::NodePort(Node::_26, spec_y('D', 4)),
        29 => crate::board_spec::NodePort(Node::_27, spec_y('D', 5)),
        30 => crate::board_spec::NodePort(Node::_28, spec_y('D', 6)),
        31 => crate::board_spec::NodePort(Node::_29, spec_y('D', 7)),
        32 => crate::board_spec::NodePort(Node::_30, spec_x('K', 1)),
        33 => crate::board_spec::NodePort(Node::_31, spec_x('K', 2)),
        34 => crate::board_spec::NodePort(Node::_32, spec_y('E', 1)),
        35 => crate::board_spec::NodePort(Node::_33, spec_y('E', 2)),
        36 => crate::board_spec::NodePort(Node::_34, spec_y('E', 3)),
        37 => crate::board_spec::NodePort(Node::_35, spec_y('E', 4)),
        38 => crate::board_spec::NodePort(Node::_36, spec_y('E', 5)),
        39 => crate::board_spec::NodePort(Node::_37, spec_y('E', 6)),
        40 => crate::board_spec::NodePort(Node::_38, spec_y('E', 7)),
        41 => crate::board_spec::NodePort(Node::_39, spec_y('F', 1)),
        42 => crate::board_spec::NodePort(Node::_40, spec_y('F', 2)),
        43 => crate::board_spec::NodePort(Node::_41, spec_y('F', 3)),
        44 => crate::board_spec::NodePort(Node::_42, spec_y('F', 4)),
        45 => crate::board_spec::NodePort(Node::_43, spec_y('F', 5)),
        46 => crate::board_spec::NodePort(Node::_44, spec_y('F', 6)),
        47 => crate::board_spec::NodePort(Node::_45, spec_y('F', 7)),
        48 => crate::board_spec::NodePort(Node::_46, spec_y('G', 1)),
        49 => crate::board_spec::NodePort(Node::_47, spec_y('G', 2)),
        50 => crate::board_spec::NodePort(Node::_48, spec_y('G', 3)),
        51 => crate::board_spec::NodePort(Node::_49, spec_y('G', 4)),
        52 => crate::board_spec::NodePort(Node::_50, spec_y('G', 5)),
        53 => crate::board_spec::NodePort(Node::_51, spec_y('G', 6)),
        54 => crate::board_spec::NodePort(Node::_52, spec_y('G', 7)),
        55 => crate::board_spec::NodePort(Node::_53, spec_y('H', 1)),
        56 => crate::board_spec::NodePort(Node::_54, spec_y('H', 2)),
        57 => crate::board_spec::NodePort(Node::_55, spec_y('H', 3)),
        58 => crate::board_spec::NodePort(Node::_56, spec_y('H', 4)),
        59 => crate::board_spec::NodePort(Node::_57, spec_y('H', 5)),
        60 => crate::board_spec::NodePort(Node::_58, spec_y('H', 6)),
        61 => crate::board_spec::NodePort(Node::_59, spec_y('H', 7)),
        62 => crate::board_spec::NodePort(Node::_60, spec_x('K', 3)),
        63 => crate::board_spec::NodePort(Node::NANO_D0, spec_x('J', 0)),
        64 => crate::board_spec::NodePort(Node::NANO_D1, spec_x('I', 1)),
        65 => crate::board_spec::NodePort(Node::NANO_D2, spec_x('J', 2)),
        66 => crate::board_spec::NodePort(Node::NANO_D3, spec_x('I', 3)),
        67 => crate::board_spec::NodePort(Node::NANO_D4, spec_x('J', 4)),
        68 => crate::board_spec::NodePort(Node::NANO_D5, spec_x('I', 5)),
        69 => crate::board_spec::NodePort(Node::NANO_D6, spec_x('J', 6)),
        70 => crate::board_spec::NodePort(Node::NANO_D7, spec_x('I', 7)),
        71 => crate::board_spec::NodePort(Node::NANO_D8, spec_x('J', 8)),
        72 => crate::board_spec::NodePort(Node::NANO_D9, spec_x('I', 9)),
        73 => crate::board_spec::NodePort(Node::NANO_D10, spec_x('J', 9)),
        74 => crate::board_spec::NodePort(Node::NANO_D11, spec_x('I', 8)),
        75 => crate::board_spec::NodePort(Node::NANO_D12, spec_x('J', 10)),
        76 => crate::board_spec::NodePort(Node::NANO_D13, spec_x('I', 10)),
        77 => crate::board_spec::NodePort(Node::NANO_A0, spec_x('I', 0)),
        78 => crate::board_spec::NodePort(Node::NANO_A1, spec_x('J', 1)),
        79 => crate::board_spec::NodePort(Node::NANO_A2, spec_x('I', 2)),
        80 => crate::board_spec::NodePort(Node::NANO_A3, spec_x('J', 3)),
        81 => crate::board_spec::NodePort(Node::NANO_A4, spec_x('I', 4)),
        82 => crate::board_spec::NodePort(Node::NANO_A5, spec_x('J', 5)),
        83 => crate::board_spec::NodePort(Node::NANO_A6, spec_x('I', 6)),
        84 => crate::board_spec::NodePort(Node::NANO_A7, spec_x('J', 7)),
        85 => crate::board_spec::NodePort(Node::RP_UART_RX, spec_x('I', 11)),
        86 => crate::board_spec::NodePort(Node::RP_UART_TX, spec_x('J', 11)),
        87 => crate::board_spec::NodePort(Node::ISENSE_PLUS, spec_x('I', 15)),
        88 => crate::board_spec::NodePort(Node::ISENSE_MINUS, spec_x('J', 15)),
        89 => crate::board_spec::NodePort(Node::TOP_RAIL, spec_x('K', 4)),
        90 => crate::board_spec::NodePort(Node::BOTTOM_RAIL, spec_x('K', 5)),
        91 => crate::board_spec::NodePort(Node::DAC1, spec_x('K', 6)),
        92 => crate::board_spec::NodePort(Node::DAC0, spec_x('K', 7)),
        93 => crate::board_spec::NodePort(Node::ADC0, spec_x('K', 8)),
        94 => crate::board_spec::NodePort(Node::ADC1, spec_x('K', 9)),
        95 => crate::board_spec::NodePort(Node::ADC2, spec_x('K', 10)),
        96 => crate::board_spec::NodePort(Node::ADC3, spec_x('K', 11)),
        97 => crate::board_spec::NodePort(Node::NANO_RESET_J0, spec_x('L', 1)),
        98 => crate::board_spec::NodePort(Node::NANO_RESET_J1, spec_x('L', 2)),
        99 => crate::board_spec::NodePort(Node::NANO_AREF, spec_x('L', 3)),
        100 => crate::board_spec::NodePort(Node::GPIO_20, spec_x('L', 4)),
        101 => crate::board_spec::NodePort(Node::GPIO_21, spec_x('L', 5)),
        102 => crate::board_spec::NodePort(Node::GPIO_22, spec_x('L', 6)),
        103 => crate::board_spec::NodePort(Node::GPIO_23, spec_x('L', 7)),
        104 => crate::board_spec::NodePort(Node::GPIO_MCP_0, spec_x('L', 8)),
        105 => crate::board_spec::NodePort(Node::GPIO_MCP_1, spec_x('L', 9)),
        106 => crate::board_spec::NodePort(Node::GPIO_MCP_2, spec_x('L', 10)),
        _ => crate::board_spec::NodePort(Node::GPIO_MCP_3, spec_x('L', 11)),
    }
}

/// The ports that the nodes are wired to.
pub open spec fn spec_node_ports() -> Seq<crate::board_spec::NodePort<Node>> {
    Seq::new(108, |position: int| spec_node_port(position as usize))
}

/// The lane at the given position of the list.
pub open spec fn spec_lane(position: usize) -> Lane {
    match position {
        0 => Lane(spec_x('A', 0), spec_y('I', 0)),
        1 => Lane(spec_x('A', 1), spec_y('J', 0)),
        2 => Lane(spec_x('A', 2), spec_x('B', 0)),
        3 => Lane(spec_x('A', 3), spec_x('B', 1)),
        4 => Lane(spec_x('A', 4), spec_x('C', 0)),
        5 => Lane(spec_x('A', 5), spec_x('C', 1)),
        6 => Lane(spec_x('A', 6), spec_x('D', 0)),
        7 => Lane(spec_x('A', 7), spec_x('D', 1)),
        8 => Lane(spec_x('A', 8), spec_x('E', 0)),
        9 => Lane(spec_x('A', 9), spec_y('K', 0)),
        10 => Lane(spec_x('A', 10), spec_x('F', 0)),
        11 => Lane(spec_x('A', 11), spec_x('F', 1)),
        12 => Lane(spec_x('A', 12), spec_x('G', 0)),
        13 => Lane(spec_x('A', 13), spec_y('L', 0)),
        14 => Lane(spec_x('A', 14), spec_x('H', 0)),
        15 => Lane(spec_x('A', 15), spec_x('H', 1)),
        16 => Lane(spec_x('B', 2), spec_y('I', 1)),
        17 => Lane(spec_x('B', 3), spec_y('J', 1)),
        18 => Lane(spec_x('B', 4), spec_x('C', 2)),
        19 => Lane(spec_x('B', 5), spec_x('C', 3)),
        20 => Lane(spec_x('B', 6), spec_x('D', 2)),
        21 => Lane(spec_x('B', 7), spec_x('D', 3)),
        22 => Lane(spec_x('B', 8), spec_x('E', 2)),
        23 => Lane(spec_x('B', 9), spec_x('E', 3)),
        24 => Lane(spec_x('B', 10), spec_x('F', 2)),
        25 => Lane(spec_x('B', 11), spec_y('K', 1)),
        26 => Lane(spec_x('B', 12), spec_x('G', 2)),
        27 => Lane(spec_x('B', 13), spec_x('G', 3)),
        28 => Lane(spec_x('B', 14), spec_x('H', 2)),
        29 => Lane(spec_x('B', 15), spec_y('L', 1)),
        30 => Lane(spec_x('C', 4), spec_y('I', 2)),
        31 => Lane(spec_x('C', 5), spec_y('J', 2)),
        32 => Lane(spec_x('C', 6), spec_x('D', 4)),
        33 => Lane(spec_x('C', 7), spec_x('D', 5)),
        34 => Lane(spec_x('C', 8), spec_x('E', 4)),
        35 => Lane(spec_x('C', 9), spec_y('L', 2)),
        36 => Lane(spec_x('C', 10), spec_x('F', 4)),
        37 => Lane(spec_x('C', 11), spec_x('F', 5)),
        38 => Lane(spec_x('C', 12), spec_x('G', 4)),
        39 => Lane(spec_x('C', 13), spec_y('K', 2)),
        40 => Lane(spec_x('C', 14), spec_x('H', 4)),
        41 => Lane(spec_x('C', 15), spec_x('H', 5)),
        42 => Lane(spec_x('D', 6), spec_y('I', 3)),
        43 => Lane(spec_x('D', 7), spec_y('J', 3)),
        44 => Lane(spec_x('D', 8), spec_x('E', 6)),
        45 => Lane(spec_x('D', 9), spec_x('E', 7)),
        46 => Lane(spec_x('D', 10), spec_x('F', 6)),
        47 => Lane(spec_x('D', 11), spec_y('L', 3)),
        48 => Lane(spec_x('D', 12), spec_x('G', 6)),
        49 => Lane(spec_x('D', 13), spec_x('G', 7)),
        50 => Lane(spec_x('D', 14), spec_x('H', 6)),
        51 => Lane(spec_x('D', 15), spec_y('K', 3)),
        52 => Lane(spec_x('E', 1), spec_y('K', 4)),
        53 => Lane(spec_x('E', 5), spec_y('L', 4)),
        54 => Lane(spec_x('E', 8), spec_y('I', 4)),
        55 => Lane(spec_x('E', 9), spec_y('J', 4)),
        56 => Lane(spec_x('E', 10), spec_x('F', 8)),
        57 => Lane(spec_x('E', 11), spec_x('F', 9)),
        58 => Lane(spec_x('E', 12), spec_x('G', 8)),
        59 => Lane(spec_x('E', 13), spec_x('G', 9)),
        60 => Lane(spec_x('E', 14), spec_x('H', 8)),
        61 => Lane(spec_x('E', 15), spec_x('H', 9)),
        62 => Lane(spec_x('F', 3), spec_y('K', 5)),
        63 => Lane(spec_x('F', 7), spec_y('L', 5)),
        64 => Lane(spec_x('F', 10), spec_y('I', 5)),
        65 => Lane(spec_x('F', 11), spec_y('J', 5)),
        66 => Lane(spec_x('F', 12), spec_x('G', 10)),
        67 => Lane(spec_x('F', 13), spec_x('G', 11)),
        68 => Lane(spec_x('F', 14), spec_x('H', 10)),
        69 => Lane(spec_x('F', 15), spec_x('H', 11)),
        70 => Lane(spec_x('G', 1), spec_y('L', 6)),
        71 => Lane(spec_x('G', 5), spec_y('K', 6)),
        72 => Lane(spec_x('G', 12), spec_y('I', 6)),
        73 => Lane(spec_x('G', 13), spec_y('J', 6)),
        74 => Lane(spec_x('G', 14), spec_x('H', 12)),
        75 => Lane(spec_x('G', 15), spec_x('H', 13)),
        76 => Lane(spec_x('H', 3), spec_y('L', 7)),
        77 => Lane(spec_x('H', 7), spec_y('K', 7)),
        78 => Lane(spec_x('H', 14), spec_y('I', 7)),
        79 => Lane(spec_x('H', 15), spec_y('J', 7)),
        80 => Lane(spec_x('I', 12), spec_x('L', 12)),
        81 => Lane(spec_x('I', 13), spec_x('J', 13)),
        82 => Lane(spec_x('I', 14), spec_x('K', 13)),
        83 => Lane(spec_x('J', 12), spec_x('L', 13)),
        84 => Lane(spec_x('J', 14), spec_x('K', 14)),
        _ => Lane(spec_x('K', 12), spec_x('L', 14)),
    }
}

/// The lanes between the chips, in the order of preference.
pub open spec fn spec_lanes() -> Seq<Lane> {
    Seq::new(86, |position: int| spec_lane(position as usize))
}

/// The bounce port at the given position of the list.
pub open spec fn spec_bounce_port(position: usize) -> Port {
    match position {
        0 => spec_y('A', 0),
        1 => spec_y('B', 0),
        2 => spec_y('C', 0),
        3 => spec_y('D', 0),
        4 => spec_y('E', 0),
        5 => spec_y('F', 0),
        6 => spec_y('G', 0),
        _ => spec_y('H', 0),
    }
}

/// The ports that are kept for bounces.
pub open spec fn spec_bounce_ports() -> Seq<Port> {
    Seq::new(8, |position: int| spec_bounce_port(position as usize))
}

/// The position, among the references of the wiring to ports, of the one
/// reference to the port with the given address.
pub open spec fn spec_user(address: usize) -> int {
    match address {
        0 => 108,
        1 => 110,
        2 => 112,
        3 => 114,
        4 => 116,
        5 => 118,
        6 => 120,
        7 => 122,
        8 => 124,
        9 => 126,
        10 => 128,
        11 => 130,
        12 => 132,
        13 => 134,
        14 => 136,
        15 => 138,
        16 => 280,
        17 => 4,
        18 => 5,
        19 => 6,
        20 => 7,
        21 => 8,
        22 => 9,
        23 => 10,
        24 => 113,
        25 => 115,
        26 => 140,
        27 => 142,
        28 => 144,
        29 => 146,
        30 => 148,
        31 => 150,
        32 => 152,
        33 => 154,
        34 => 156,
        35 => 158,
        36 => 160,
        37 => 162,
        38 => 164,
        39 => 166,
        40 => 281,
        41 => 11,
        42 => 12,
        43 => 13,
        44 => 14,
        45 => 15,
        46 => 16,
        47 => 17,
        48 => 117,
        49 => 119,
        50 => 145,
        51 => 147,
        52 => 168,
        53 => 170,
        54 => 172,
        55 => 174,
        56 => 176,
        57 => 178,
        58 => 180,
        59 => 182,
        60 => 184,
        61 => 186,
        62 => 188,
        63 => 190,
        64 => 282,
        65 => 18,
        66 => 19,
        67 => 20,
        68 => 21,
        69 => 22,
        70 => 23,
        71 => 24,
        72 => 121,
        73 => 123,
        74 => 149,
        75 => 151,
        76 => 173,
        77 => 175,
        78 => 192,
        79 => 194,
        80 => 196,
        81 => 198,
        82 => 200,
        83 => 202,
        84 => 204,
        85 => 206,
        86 => 208,
        87 => 210,
        88 => 283,
        89 => 25,
        90 => 26,
        91 => 27,
        92 => 28,
        93 => 29,
        94 => 30,
        95 => 31,
        96 => 125,
        97 => 212,
        98 => 153,
        99 => 155,
        100 => 177,
        101 => 214,
        102 => 197,
        103 => 199,
        104 => 216,
        105 => 218,
        106 => 220,
        107 => 222,
        108 => 224,
        109 => 226,
        110 => 228,
        111 => 230,
        112 => 284,
        113 => 34,
        114 => 35,
        115 => 36,
        116 => 37,
        117 => 38,
        118 => 39,
        119 => 40,
        120 => 129,
        121 => 131,
        122 => 157,
        123 => 232,
        124 => 181,
        125 => 183,
        126 => 201,
        127 => 234,
        128 => 221,
        129 => 223,
        130 => 236,
        131 => 238,
        132 => 240,
        133 => 242,
        134 => 244,
        135 => 246,
        136 => 285,
        137 => 41,
        138 => 42,
        139 => 43,
        140 => 44,
        141 => 45,
        142 => 46,
        143 => 47,
        144 => 133,
        145 => 248,
        146 => 161,
        147 => 163,
        148 => 185,
        149 => 250,
        150 => 205,
        151 => 207,
        152 => 225,
        153 => 227,
        154 => 241,
        155 => 243,
        156 => 252,
        157 => 254,
        158 => 256,
        159 => 258,
        160 => 286,
        161 => 48,
        162 => 49,
        163 => 50,
        164 => 51,
        165 => 52,
        166 => 53,
        167 => 54,
        168 => 137,
        169 => 139,
        170 => 165,
        171 => 260,
        172 => 189,
        173 => 191,
        174 => 209,
        175 => 262,
        176 => 229,
        177 => 231,
        178 => 245,
        179 => 247,
        180 => 257,
        181 => 259,
        182 => 264,
        183 => 266,
        184 => 287,
        185 => 55,
        186 => 56,
        187 => 57,
        188 => 58,
        189 => 59,
        190 => 60,
        191 => 61,
        192 => 77,
        193 => 64,
        194 => 79,
        195 => 66,
        196 => 81,
        197 => 68,
        198 => 83,
        199 => 70,
        200 => 74,
        201 => 72,
        202 => 76,
        203 => 85,
        204 => 268,
        205 => 270,
        206 => 272,
        207 => 87,
        208 => 109,
        209 => 141,
        210 => 169,
        211 => 193,
        212 => 217,
        213 => 237,
        214 => 253,
        215 => 265,
        216 => 63,
        217 => 78,
        218 => 65,
        219 => 80,
        220 => 67,
        221 => 82,
        222 => 69,
        223 => 84,
        224 => 71,
        225 => 73,
        226 => 75,
        227 => 86,
        228 => 274,
        229 => 271,
        230 => 276,
        231 => 88,
        232 => 111,
        233 => 143,
        234 => 171,
        235 => 195,
        236 => 219,
        237 => 239,
        238 => 255,
        239 => 267,
        240 => 3,
        241 => 32,
        242 => 33,
        243 => 62,
        244 => 89,
        245 => 90,
        246 => 91,
        247 => 92,
        248 => 93,
        249 => 94,
        250 => 95,
        251 => 96,
        252 => 278,
        253 => 273,
        254 => 277,
        255 => 1,
        256 => 127,
        257 => 159,
        258 => 187,
        259 => 211,
        260 => 213,
        261 => 233,
        262 => 251,
        263 => 263,
        264 => 2,
        265 => 97,
        266 => 98,
        267 => 99,
        268 => 100,
        269 => 101,
        270 => 102,
        271 => 103,
        272 => 104,
        273 => 105,
        274 => 106,
        275 => 107,
        276 => 269,
        277 => 275,
        278 => 279,
        279 => 0,
        280 => 135,
        281 => 167,
        282 => 179,
        283 => 203,
        284 => 215,
        285 => 235,
        286 => 249,
        _ => 261,
    }
}

/// The port of the reference at the given position: the ports of the
/// node-ports come first, then both ends of each lane, then the bounce ports.
pub open spec fn spec_use(position: int) -> Port {
    if position < 108 {
        spec_node_port(position as usize).1
    } else if position >= 280 {
        spec_bounce_port((position - 280) as usize)
    } else if (position - 108) % 2 == 0 {
        spec_lane(((position - 108) / 2) as usize).0
    } else {
        spec_lane(((position - 108) / 2) as usize).1
    }
}

/// Each node-port is wired to a port of the board, and is the reference that
/// the table gives for that port.
proof fn lemma_node_port_users()
    ensures
        forall|position: usize|
            position < 108 ==> (#[trigger] spec_node_port(position)).1.wf() && spec_user(
                spec_node_port(position).1.address() as usize,
            ) == position,
{
}

/// Each end of each lane is a port of the board, and is the reference that
/// the table gives for that port.
proof fn lemma_lane_users()
    ensures
        forall|position: usize|
            position < 86 ==> (#[trigger] spec_lane(position)).wf() && spec_user(
                spec_lane(position).0.address() as usize,
            ) == 108 + 2 * position && spec_user(spec_lane(position).1.address() as usize)
                == 108 + 2 * position + 1,
{
}

/// Each bounce port is a port of the board, and is the reference that the
/// table gives for that port.
proof fn lemma_bounce_port_users()
    ensures
        forall|position: usize|
            position < 8 ==> (#[trigger] spec_bounce_port(position)).wf() && spec_user(
                spec_bounce_port(position).address() as usize,
            ) == 280 + position,
{
}

/// The reference that the table gives for a port is a reference to that port.
proof fn lemma_users_cover()
    ensures
        forall|address: usize|
            address < 288 ==> 0 <= #[trigger] spec_user(address) < 288 && spec_use(
                spec_user(address),
            ).address() == address,
{
}

/// Every port of the board is wired exactly once: to a node, as one end of a
/// lane, or as a bounce port.
pub proof fn lemma_wired_once()
    ensures
        crate::board_spec::repeated_uses(
            crate::board_spec::port_uses(spec_node_ports(), spec_lanes(), spec_bounce_ports()),
        ).len() == 0,
        crate::board_spec::unused_from(
            crate::board_spec::port_uses(
                spec_node_ports(),
                spec_lanes(),
                spec_bounce_ports(),
            ).to_set(),
            0,
        ).len() == 0,
        crate::joining::sound_wiring(spec_node_ports(), spec_lanes()),
{
    let uses = crate::board_spec::port_uses(spec_node_ports(), spec_lanes(), spec_bounce_ports());
    let user = |address: int| spec_user(address as usize);
    assert forall|position: int| 0 <= position < 288 implies #[trigger] uses[position] == spec_use(
        position,
    ) by {
        if 108 <= position < 280 {
            assert(uses[position] == crate::board_spec::lane_uses(spec_lanes())[position - 108]);
        }
    }
    lemma_node_port_users();
    lemma_lane_users();
    lemma_bounce_port_users();
    assert forall|position: int| 0 <= position < 288 implies (#[trigger] uses[position]).wf()
        && user(uses[position].address()) == position by {
        if position < 108 {
            assert(spec_node_port(position as usize).1.wf());
        } else if position < 280 {
            assert(spec_lane(((position - 108) / 2) as usize).wf());
        } else {
            assert(spec_bounce_port((position - 280) as usize).wf());
        }
    }
    lemma_users_cover();
    assert forall|address: int| 0 <= address < 288 implies 0 <= #[trigger] user(address) < 288
        && uses[user(address)] == Port::from_address(address) by {
        let port = uses[user(address)];
        assert(port == spec_use(spec_user(address as usize)));
        port.lemma_address();
    }
    crate::board_spec::lemma_wired_once(spec_node_ports(), spec_lanes(), spec_bounce_ports(), user);
}

/// The port on the X edge of the chip with the given letter.
fn x(chip: char, index: u8) -> (r: Port)
    requires
        'A' <= chip <= 'L',
        index < 16,
    ensures
        r == spec_x(chip, index),
{
    Port::new(ChipId::from_ascii(chip as u8), Dimension::X, index)
}

/// The port on the Y edge of the chip with the given letter.
fn y(chip: char, index: u8) -> (r: Port)
    requires
        'A' <= chip <= 'L',
        index < 8,
    ensures
        r == spec_y(chip, index),
{
    Port::new(ChipId::from_ascii(chip as u8), Dimension::Y, index)
}

/// The ports that the nodes are wired to.
fn node_ports() -> (r: [crate::board_spec::NodePort<Node>; 108])
    ensures
        r@ == spec_node_ports(),
{
    let table = [
        crate::board_spec::NodePort(Node::GND, x('L', 15)),
        crate::board_spec::NodePort(Node::GND, x('K', 15)),
        crate::board_spec::NodePort(Node::SUPPLY_5v, x('L', 0)),
        crate::board_spec::NodePort(Node::_1, x('K', 0)),
        crate::board_spec::NodePort(Node::_2, y('A', 1)),
        crate::board_spec::NodePort(Node::_3, y('A', 2)),
        crate::board_spec::NodePort(Node::_4, y('A', 3)),
        crate::board_spec::NodePort(Node::_5, y('A', 4)),
        crate::board_spec::NodePort(Node::_6, y('A', 5)),
        crate::board_spec::NodePort(Node::_7, y('A', 6)),
        crate::board_spec::NodePort(Node::_8, y('A', 7)),
        crate::board_spec::NodePort(Node::_9, y('B', 1)),
        crate::board_spec::NodePort(Node::_10, y('B', 2)),
        crate::board_spec::NodePort(Node::_11, y('B', 3)),
        crate::board_spec::NodePort(Node::_12, y('B', 4)),
        crate::board_spec::NodePort(Node::_13, y('B', 5)),
        crate::board_spec::NodePort(Node::_14, y('B', 6)),
        crate::board_spec::NodePort(Node::_15, y('B', 7)),
        crate::board_spec::NodePort(Node::_16, y('C', 1)),
        crate::board_spec::NodePort(Node::_17, y('C', 2)),
        crate::board_spec::NodePort(Node::_18, y('C', 3)),
        crate::board_spec::NodePort(Node::_19, y('C', 4)),
        crate::board_spec::NodePort(Node::_20, y('C', 5)),
        crate::board_spec::NodePort(Node::_21, y('C', 6)),
        crate::board_spec::NodePort(Node::_22, y('C', 7)),
        crate::board_spec::NodePort(Node::_23, y('D', 1)),
        crate::board_spec::NodePort(Node::_24, y('D', 2)),
        crate::board_spec::NodePort(Node::_25, y('D', 3)),
        crate::board_spec::NodePort(Node::_26, y('D', 4)),
        crate::board_spec::NodePort(Node::_27, y('D', 5)),
        crate::board_spec::NodePort(Node::_28, y('D', 6)),
        crate::board_spec::NodePort(Node::_29, y('D', 7)),
        crate::board_spec::NodePort(Node::_30, x('K', 1)),
        crate::board_spec::NodePort(Node::_31, x('K', 2)),
        crate::board_spec::NodePort(Node::_32, y('E', 1)),
        crate::board_spec::NodePort(Node::_33, y('E', 2)),
        crate::board_spec::NodePort(Node::_34, y('E', 3)),
        crate::board_spec::NodePort(Node::_35, y('E', 4)),
        crate::board_spec::NodePort(Node::_36, y('E', 5)),
        crate::board_spec::NodePort(Node::_37, y('E', 6)),
        crate::board_spec::NodePort(Node::_38, y('E', 7)),
        crate::board_spec::NodePort(Node::_39, y('F', 1)),
        crate::board_spec::NodePort(Node::_40, y('F', 2)),
        crate::board_spec::NodePort(Node::_41, y('F', 3)),
        crate::board_spec::NodePort(Node::_42, y('F', 4)),
        crate::board_spec::NodePort(Node::_43, y('F', 5)),
        crate::board_spec::NodePort(Node::_44, y('F', 6)),
        crate::board_spec::NodePort(Node::_45, y('F', 7)),
        crate::board_spec::NodePort(Node::_46, y('G', 1)),
        crate::board_spec::NodePort(Node::_47, y('G', 2)),
        crate::board_spec::NodePort(Node::_48, y('G', 3)),
        crate::board_spec::NodePort(Node::_49, y('G', 4)),
        crate::board_spec::NodePort(Node::_50, y('G', 5)),
        crate::board_spec::NodePort(Node::_51, y('G', 6)),
        crate::board_spec::NodePort(Node::_52, y('G', 7)),
        crate::board_spec::NodePort(Node::_53, y('H', 1)),
        crate::board_spec::NodePort(Node::_54, y('H', 2)),
        crate::board_spec::NodePort(Node::_55, y('H', 3)),
        crate::board_spec::NodePort(Node::_56, y('H', 4)),
        crate::board_spec::NodePort(Node::_57, y('H', 5)),
        crate::board_spec::NodePort(Node::_58, y('H', 6)),
        crate::board_spec::NodePort(Node::_59, y('H', 7)),
        crate::board_spec::NodePort(Node::_60, x('K', 3)),
        crate::board_spec::NodePort(Node::NANO_D0, x('J', 0)),
        crate::board_spec::NodePort(Node::NANO_D1, x('I', 1)),
        crate::board_spec::NodePort(Node::NANO_D2, x('J', 2)),
        crate::board_spec::NodePort(Node::NANO_D3, x('I', 3)),
        crate::board_spec::NodePort(Node::NANO_D4, x('J', 4)),
        crate::board_spec::NodePort(Node::NANO_D5, x('I', 5)),
        crate::board_spec::NodePort(Node::NANO_D6, x('J', 6)),
        crate::board_spec::NodePort(Node::NANO_D7, x('I', 7)),
        crate::board_spec::NodePort(Node::NANO_D8, x('J', 8)),
        crate::board_spec::NodePort(Node::NANO_D9, x('I', 9)),
        crate::board_spec::NodePort(Node::NANO_D10, x('J', 9)),
        crate::board_spec::NodePort(Node::NANO_D11, x('I', 8)),
        crate::board_spec::NodePort(Node::NANO_D12, x('J', 10)),
        crate::board_spec::NodePort(Node::NANO_D13, x('I', 10)),
        crate::board_spec::NodePort(Node::NANO_A0, x('I', 0)),
        crate::board_spec::NodePort(Node::NANO_A1, x('J', 1)),
        crate::board_spec::NodePort(Node::NANO_A2, x('I', 2)),
        crate::board_spec::NodePort(Node::NANO_A3, x('J', 3)),
        crate::board_spec::NodePort(Node::NANO_A4, x('I', 4)),
        crate::board_spec::NodePort(Node::NANO_A5, x('J', 5)),
        crate::board_spec::NodePort(Node::NANO_A6, x('I', 6)),
        crate::board_spec::NodePort(Node::NANO_A7, x('J', 7)),
        crate::board_spec::NodePort(Node::RP_UART_RX, x('I', 11)),
        crate::board_spec::NodePort(Node::RP_UART_TX, x('J', 11)),
        crate::board_spec::NodePort(Node::ISENSE_PLUS, x('I', 15)),
        crate::board_spec::NodePort(Node::ISENSE_MINUS, x('J', 15)),
        crate::board_spec::NodePort(Node::TOP_RAIL, x('K', 4)),
        crate::board_spec::NodePort(Node::BOTTOM_RAIL, x('K', 5)),
        crate::board_spec::NodePort(Node::DAC1, x('K', 6)),
        crate::board_spec::NodePort(Node::DAC0, x('K', 7)),
        crate::board_spec::NodePort(Node::ADC0, x('K', 8)),
        crate::board_spec::NodePort(Node::ADC1, x('K', 9)),
        crate::board_spec::NodePort(Node::ADC2, x('K', 10)),
        crate::board_spec::NodePort(Node::ADC3, x('K', 11)),
        crate::board_spec::NodePort(Node::NANO_RESET_J0, x('L', 1)),
        crate::board_spec::NodePort(Node::NANO_RESET_J1, x('L', 2)),
        crate::board_spec::NodePort(Node::NANO_AREF, x('L', 3)),
        crate::board_spec::NodePort(Node::GPIO_20, x('L', 4)),
        crate::board_spec::NodePort(Node::GPIO_21, x('L', 5)),
        crate::board_spec::NodePort(Node::GPIO_22, x('L', 6)),
        crate::board_spec::NodePort(Node::GPIO_23, x('L', 7)),
        crate::board_spec::NodePort(Node::GPIO_MCP_0, x('L', 8)),
        crate::board_spec::NodePort(Node::GPIO_MCP_1, x('L', 9)),
        crate::board_spec::NodePort(Node::GPIO_MCP_2, x('L', 10)),
        crate::board_spec::NodePort(Node::GPIO_MCP_3, x('L', 11)),
    ];
    proof {
        assert forall|position: int| 0 <= position < 108 implies table@[position] == spec_node_port(
            position as usize,
        ) by {}
        assert(table@ =~= spec_node_ports());
    }
    table
}

/// The lanes between the chips. Of several lanes that would do, the
/// router takes the first in this list.
fn lanes() -> (r: [Lane; 86])
    ensures
        r@ == spec_lanes(),
{
    let table = [
        Lane(x('A', 0), y('I', 0)),
        Lane(x('A', 1), y('J', 0)),
        Lane(x('A', 2), x('B', 0)),
        Lane(x('A', 3), x('B', 1)),
        Lane(x('A', 4), x('C', 0)),
        Lane(x('A', 5), x('C', 1)),
        Lane(x('A', 6), x('D', 0)),
        Lane(x('A', 7), x('D', 1)),
        Lane(x('A', 8), x('E', 0)),
        Lane(x('A', 9), y('K', 0)),
        Lane(x('A', 10), x('F', 0)),
        Lane(x('A', 11), x('F', 1)),
        Lane(x('A', 12), x('G', 0)),
        Lane(x('A', 13), y('L', 0)),
        Lane(x('A', 14), x('H', 0)),
        Lane(x('A', 15), x('H', 1)),
        Lane(x('B', 2), y('I', 1)),
        Lane(x('B', 3), y('J', 1)),
        Lane(x('B', 4), x('C', 2)),
        Lane(x('B', 5), x('C', 3)),
        Lane(x('B', 6), x('D', 2)),
        Lane(x('B', 7), x('D', 3)),
        Lane(x('B', 8), x('E', 2)),
        Lane(x('B', 9), x('E', 3)),
        Lane(x('B', 10), x('F', 2)),
        Lane(x('B', 11), y('K', 1)),
        Lane(x('B', 12), x('G', 2)),
        Lane(x('B', 13), x('G', 3)),
        Lane(x('B', 14), x('H', 2)),
        Lane(x('B', 15), y('L', 1)),
        Lane(x('C', 4), y('I', 2)),
        Lane(x('C', 5), y('J', 2)),
        Lane(x('C', 6), x('D', 4)),
        Lane(x('C', 7), x('D', 5)),
        Lane(x('C', 8), x('E', 4)),
        Lane(x('C', 9), y('L', 2)),
        Lane(x('C', 10), x('F', 4)),
        Lane(x('C', 11), x('F', 5)),
        Lane(x('C', 12), x('G', 4)),
        Lane(x('C', 13), y('K', 2)),
        Lane(x('C', 14), x('H', 4)),
        Lane(x('C', 15), x('H', 5)),
        Lane(x('D', 6), y('I', 3)),
        Lane(x('D', 7), y('J', 3)),
        Lane(x('D', 8), x('E', 6)),
        Lane(x('D', 9), x('E', 7)),
        Lane(x('D', 10), x('F', 6)),
        Lane(x('D', 11), y('L', 3)),
        Lane(x('D', 12), x('G', 6)),
        Lane(x('D', 13), x('G', 7)),
        Lane(x('D', 14), x('H', 6)),
        Lane(x('D', 15), y('K', 3)),
        Lane(x('E', 1), y('K', 4)),
        Lane(x('E', 5), y('L', 4)),
        Lane(x('E', 8), y('I', 4)),
        Lane(x('E', 9), y('J', 4)),
        Lane(x('E', 10), x('F', 8)),
        Lane(x('E', 11), x('F', 9)),
        Lane(x('E', 12), x('G', 8)),
        Lane(x('E', 13), x('G', 9)),
        Lane(x('E', 14), x('H', 8)),
        Lane(x('E', 15), x('H', 9)),
        Lane(x('F', 3), y('K', 5)),
        Lane(x('F', 7), y('L', 5)),
        Lane(x('F', 10), y('I', 5)),
        Lane(x('F', 11), y('J', 5)),
        Lane(x('F', 12), x('G', 10)),
        Lane(x('F', 13), x('G', 11)),
        Lane(x('F', 14), x('H', 10)),
        Lane(x('F', 15), x('H', 11)),
        Lane(x('G', 1), y('L', 6)),
        Lane(x('G', 5), y('K', 6)),
        Lane(x('G', 12), y('I', 6)),
        Lane(x('G', 13), y('J', 6)),
        Lane(x('G', 14), x('H', 12)),
        Lane(x('G', 15), x('H', 13)),
        Lane(x('H', 3), y('L', 7)),
        Lane(x('H', 7), y('K', 7)),
        Lane(x('H', 14), y('I', 7)),
        Lane(x('H', 15), y('J', 7)),
        Lane(x('I', 12), x('L', 12)),
        Lane(x('I', 13), x('J', 13)),
        Lane(x('I', 14), x('K', 13)),
        Lane(x('J', 12), x('L', 13)),
        Lane(x('J', 14), x('K', 14)),
        Lane(x('K', 12), x('L', 14)),
    ];
    proof {
        assert forall|position: int| 0 <= position < 86 implies table@[position] == spec_lane(
            position as usize,
        ) by {}
        assert(table@ =~= spec_lanes());
    }
    table
}

/// The ports that are kept for bounces.
fn bounce_ports() -> (r: [Port; 8])
    ensures
        r@ == spec_bounce_ports(),
{
    let table = [
        y('A', 0),
        y('B', 0),
        y('C', 0),
        y('D', 0),
        y('E', 0),
        y('F', 0),
        y('G', 0),
        y('H', 0),
    ];
    proof {
        assert forall|position: int| 0 <= position < 8 implies table@[position] == spec_bounce_port(
            position as usize,
        ) by {}
        assert(table@ =~= spec_bounce_ports());
    }
    table
}

/// The wiring of the board.
pub fn board_spec() -> (r: BoardSpec)
    ensures
        r.node_ports@ == spec_node_ports(),
        r.lanes@ == spec_lanes(),
        r.bounce_ports@ == spec_bounce_ports(),
        crate::joining::sound_wiring(r.node_ports@, r.lanes@),
{
    proof {
        lemma_wired_once();
    }
    BoardSpec { node_ports: node_ports(), lanes: lanes(), bounce_ports: bounce_ports() }
}

/// The board, ready for routing.
pub fn init_board() -> (r: Board)
    ensures
        r.spec_node_ports() == spec_node_ports(),
        r.spec_lanes() == spec_lanes(),
        r.spec_bounce_ports() == spec_bounce_ports(),
        crate::joining::sound_wiring(r.spec_node_ports(), r.spec_lanes()),
{
    Board::new(board_spec())
}

/// The netlist at power-up: the special nets, each with its one node and
/// the color in which it is shown.
pub fn default_nets() -> (r: crate::nets::Nets<Node>)
    ensures
        r.spec_supply_switch_pos() == crate::nets::SupplySwitchPos::_5V,
        r.count() == 7,
        forall|i: int| 0 <= i < 7 ==> (#[trigger] r.id_at(i)).spec_index() == i,
        r.spec_nets()[0].nodes@ == set![Node::GND],
        r.spec_colors()[0] == crate::nets::Rgb(0x00, 0x1c, 0x04),
        r.spec_nets()[1].nodes@ == set![Node::TOP_RAIL],
        r.spec_colors()[1] == crate::nets::Rgb(0x30, 0x1a, 0x02),
        r.spec_nets()[2].nodes@ == set![Node::BOTTOM_RAIL],
        r.spec_colors()[2] == crate::nets::Rgb(0x12, 0x09, 0x32),
        r.spec_nets()[3].nodes@ == set![Node::DAC0],
        r.spec_colors()[3] == crate::nets::Rgb(0x23, 0x11, 0x11),
        r.spec_nets()[4].nodes@ == set![Node::DAC1],
        r.spec_colors()[4] == crate::nets::Rgb(0x23, 0x09, 0x13),
        r.spec_nets()[5].nodes@ == set![Node::ISENSE_PLUS],
        r.spec_colors()[5] == crate::nets::Rgb(0x23, 0x23, 0x23),
        r.spec_nets()[6].nodes@ == set![Node::ISENSE_MINUS],
        r.spec_colors()[6] == crate::nets::Rgb(0x23, 0x23, 0x23),
{
    let mut nets = crate::nets::Nets::new();
    let nodes = [Node::GND];
    proof {
        assert(nodes@.to_set() =~= set![Node::GND]) by {
            assert(nodes@[0] == Node::GND);
        }
    }
    nets.add_net(nodes.as_slice(), crate::nets::Rgb(0x00, 0x1c, 0x04));
    let nodes = [Node::TOP_RAIL];
    proof {
        assert(nodes@.to_set() =~= set![Node::TOP_RAIL]) by {
            assert(nodes@[0] == Node::TOP_RAIL);
        }
    }
    nets.add_net(nodes.as_slice(), crate::nets::Rgb(0x30, 0x1a, 0x02));
    let nodes = [Node::BOTTOM_RAIL];
    proof {
        assert(nodes@.to_set() =~= set![Node::BOTTOM_RAIL]) by {
            assert(nodes@[0] == Node::BOTTOM_RAIL);
        }
    }
    nets.add_net(nodes.as_slice(), crate::nets::Rgb(0x12, 0x09, 0x32));
    let nodes = [Node::DAC0];
    proof {
        assert(nodes@.to_set() =~= set![Node::DAC0]) by {
            assert(nodes@[0] == Node::DAC0);
        }
    }
    nets.add_net(nodes.as_slice(), crate::nets::Rgb(0x23, 0x11, 0x11));
    let nodes = [Node::DAC1];
    proof {
        assert(nodes@.to_set() =~= set![Node::DAC1]) by {
            assert(nodes@[0] == Node::DAC1);
        }
    }
    nets.add_net(nodes.as_slice(), crate::nets::Rgb(0x23, 0x09, 0x13));
    let nodes = [Node::ISENSE_PLUS];
    proof {
        assert(nodes@.to_set() =~= set![Node::ISENSE_PLUS]) by {
            assert(nodes@[0] == Node::ISENSE_PLUS);
        }
    }
    nets.add_net(nodes.as_slice(), crate::nets::Rgb(0x23, 0x23, 0x23));
    let nodes = [Node::ISENSE_MINUS];
    proof {
        assert(nodes@.to_set() =~= set![Node::ISENSE_MINUS]) by {
            assert(nodes@[0] == Node::ISENSE_MINUS);
        }
    }
    nets.add_net(nodes.as_slice(), crate::nets::Rgb(0x23, 0x23, 0x23));
    nets
}

} // verus!
