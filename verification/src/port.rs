//! The ports of the chips, their addresses, and their names.

use vstd::prelude::*;

use crate::chip_id::ChipId;
use crate::dimension::Dimension;
use crate::edge::Edge;
use vstd::string::StringSliceAdditionalSpecFns;

verus! {

/// A single connection point on one of the chip edges, such as Ay0 or Bx7.
#[derive(Copy, Clone, PartialEq, Eq, Structural, Debug)]
pub struct Port(pub(crate) ChipId, pub(crate) Dimension, pub(crate) u8);

impl Port {
    /// The chip is one of the twelve, and the index lies on the edge.
    #[verifier::type_invariant]
    pub open(crate) spec fn wf(self) -> bool {
        self.0.wf() && self.2 < self.1.spec_port_count()
    }

    /// The port of the given chip, in the given dimension, with the given index.
    pub open(crate) spec fn spec_new(chip_id: ChipId, dimension: Dimension, index: u8) -> Port {
        Port(chip_id, dimension, index)
    }

    /// The chip of the port.
    pub open(crate) spec fn spec_chip_id(&self) -> ChipId {
        self.0
    }

    /// The dimension of the port.
    pub open(crate) spec fn spec_dimension(&self) -> Dimension {
        self.1
    }

    /// The index of the port on its edge.
    pub open(crate) spec fn spec_index(&self) -> u8 {
        self.2
    }

    /// The edge on which the port lies.
    pub open spec fn spec_edge(&self) -> Edge {
        Edge::spec_new(self.spec_chip_id(), self.spec_dimension())
    }

    /// Position of the port among the 288 ports: chips in order, and on each
    /// chip the sixteen X ports before the eight Y ports.
    pub open spec fn address(&self) -> int {
        self.spec_chip_id().spec_index() * 24 + self.spec_dimension().spec_index() * 16
            + self.spec_index()
    }

    /// The port at the given position.
    pub open spec fn from_address(address: int) -> Port {
        let chip = ChipId::spec_from_index(address / 24);
        let offset = address % 24;
        if offset < 16 {
            Port::spec_new(chip, Dimension::X, offset as u8)
        } else {
            Port::spec_new(chip, Dimension::Y, (offset - 16) as u8)
        }
    }

    /// Constructs the port for the given chip, dimension and index.
    pub fn new(chip_id: ChipId, dimension: Dimension, index: u8) -> (r: Self)
        requires
            index < dimension.spec_port_count(),
        ensures
            r == Port::spec_new(chip_id, dimension, index),
    {
        proof {
            use_type_invariant(chip_id);
        }
        Self(chip_id, dimension, index)
    }

    /// The chip on which this port resides.
    #[verifier::when_used_as_spec(spec_chip_id)]
    pub fn chip_id(&self) -> (r: ChipId)
        ensures
            r == self.spec_chip_id(),
    {
        self.0
    }

    /// Dimension of this port.
    #[verifier::when_used_as_spec(spec_dimension)]
    pub fn dimension(&self) -> (r: Dimension)
        ensures
            r == self.spec_dimension(),
    {
        self.1
    }

    /// Index of the port (0..=15 if the dimension is X, 0..=7 if it is Y).
    #[verifier::when_used_as_spec(spec_index)]
    pub fn index(&self) -> (r: u8)
        ensures
            r == self.spec_index(),
            r < self.spec_dimension().spec_port_count(),
    {
        proof {
            use_type_invariant(self);
        }
        self.2
    }

    /// The edge on which this port resides.
    #[verifier::when_used_as_spec(spec_edge)]
    pub fn edge(&self) -> (r: Edge)
        ensures
            r == self.spec_edge(),
    {
        proof {
            use_type_invariant(self);
        }
        Edge::new(self.0, self.1)
    }

    /// All 288 ports, by ascending address.
    pub fn all() -> (r: Vec<Port>)
        ensures
            r@.len() == 288,
            forall|a: int| 0 <= a < 288 ==> r@[a] == Port::from_address(a),
    {
        let mut ports: Vec<Port> = Vec::new();
        let mut chip_index: usize = 0;
        while chip_index < 12
            invariant
                chip_index <= 12,
                ports@.len() == chip_index * 24,
                forall|a: int| 0 <= a < ports@.len() ==> ports@[a] == Port::from_address(a),
            decreases 12 - chip_index,
        {
            let chip = ChipId::from_index(chip_index);
            let mut x: u8 = 0;
            while x < 16
                invariant
                    x <= 16,
                    chip_index < 12,
                    chip == ChipId::spec_from_index(chip_index as int),
                    ports@.len() == chip_index * 24 + x,
                    forall|a: int| 0 <= a < ports@.len() ==> ports@[a] == Port::from_address(a),
                decreases 16 - x,
            {
                ports.push(Port::new(chip, Dimension::X, x));
                x += 1;
            }
            let mut y: u8 = 0;
            while y < 8
                invariant
                    y <= 8,
                    chip_index < 12,
                    chip == ChipId::spec_from_index(chip_index as int),
                    ports@.len() == chip_index * 24 + 16 + y,
                    forall|a: int| 0 <= a < ports@.len() ==> ports@[a] == Port::from_address(a),
                decreases 8 - y,
            {
                ports.push(Port::new(chip, Dimension::Y, y));
                y += 1;
            }
            chip_index += 1;
        }
        ports
    }

    /// The ports are told apart by their addresses.
    pub proof fn lemma_address(self)
        requires
            self.wf(),
        ensures
            0 <= self.address() < 288,
            Port::from_address(self.address()) == self,
    {
    }

    /// Every address below 288 belongs to a port.
    pub proof fn lemma_from_address(address: int)
        requires
            0 <= address < 288,
        ensures
            Port::from_address(address).wf(),
            Port::from_address(address).address() == address,
    {
    }
}

/// The ports with an address below `bound`.
pub open spec fn ports_below(bound: int) -> Set<Port> {
    Set::new(|port: Port| port.wf() && port.address() < bound)
}

/// All the ports of the board.
pub open spec fn all_ports() -> Set<Port> {
    Set::new(|port: Port| port.wf())
}

/// There are as many ports below a bound as the bound says.
pub proof fn lemma_ports_below(bound: int)
    requires
        0 <= bound <= 288,
    ensures
        ports_below(bound).finite(),
        ports_below(bound).len() == bound,
    decreases bound,
{
    if bound == 0 {
        assert(ports_below(0) =~= Set::<Port>::empty());
    } else {
        lemma_ports_below(bound - 1);
        Port::lemma_from_address(bound - 1);
        assert forall|port: Port|
            ports_below(bound).contains(port) == ports_below(bound - 1).insert(
                Port::from_address(bound - 1),
            ).contains(port) by {
            if port.wf() {
                port.lemma_address();
            }
        }
        assert(ports_below(bound) =~= ports_below(bound - 1).insert(Port::from_address(bound - 1)));
    }
}

/// A set of ports has at most 288 members.
pub proof fn lemma_port_count(ports: Set<Port>)
    requires
        ports.subset_of(all_ports()),
    ensures
        ports.finite(),
        ports.len() <= 288,
{
    lemma_ports_below(288);
    assert forall|port: Port| all_ports().contains(port) implies ports_below(288).contains(
        port,
    ) by {
        port.lemma_address();
    }
    assert(all_ports() =~= ports_below(288));
    vstd::set_lib::lemma_set_subset_finite(all_ports(), ports);
    vstd::set_lib::lemma_len_subset(ports, all_ports());
}

/// The text is not the name of a port.
#[derive(Debug, PartialEq, Eq)]
pub struct InvalidPort;

/// The number that a run of decimal digits stands for, or `None` where one
/// of the bytes is no digit.
pub open spec fn digits_value(digits: Seq<u8>) -> Option<int>
    decreases digits.len(),
{
    if digits.len() == 0 {
        Some(0)
    } else if 48 <= digits.last() <= 57 {
        match digits_value(digits.drop_last()) {
            Some(value) => Some(value * 10 + (digits.last() - 48)),
            None => None,
        }
    } else {
        None
    }
}

/// The index that the text stands for: decimal digits, after a plus sign
/// or without one, with a value of at most 255.
pub open spec fn parse_index(text: Seq<u8>) -> Option<u8> {
    let digits = if text.len() > 0 && text[0] == 43 {
        text.subrange(1, text.len() as int)
    } else {
        text
    };
    if digits.len() == 0 {
        None
    } else {
        match digits_value(digits) {
            Some(value) => if value <= 255 {
                Some(value as u8)
            } else {
                None
            },
            None => None,
        }
    }
}

/// The port that the text names: the letter of the chip, from `A` to `L`,
/// then `x` or `y` in either case, then the index of the port on that edge.
pub open spec fn parse_port(text: Seq<u8>) -> Option<Port> {
    if text.len() < 2 || !(65 <= text[0] <= 76) {
        None
    } else if !(text[1] == 120 || text[1] == 88 || text[1] == 121 || text[1] == 89) {
        None
    } else {
        let dimension = if text[1] == 120 || text[1] == 88 {
            Dimension::X
        } else {
            Dimension::Y
        };
        match parse_index(text.subrange(2, text.len() as int)) {
            Some(index) => if index < dimension.spec_port_count() {
                Some(Port::spec_new(ChipId::spec_from_index(text[0] - 65), dimension, index))
            } else {
                None
            },
            None => None,
        }
    }
}

/// A longer run of digits stands for no smaller number.
proof fn lemma_digits_value_grows(digits: Seq<u8>, k: int)
    requires
        0 <= k <= digits.len(),
        digits_value(digits) is Some,
    ensures
        digits_value(digits.take(k)) is Some,
        0 <= digits_value(digits.take(k))->0 <= digits_value(digits)->0,
    decreases digits.len(),
{
    if k == digits.len() {
        assert(digits.take(k) =~= digits);
        if digits.len() > 0 {
            lemma_digits_value_grows(digits.drop_last(), k - 1);
        }
    } else {
        lemma_digits_value_grows(digits.drop_last(), k);
        assert(digits.drop_last().take(k) =~= digits.take(k));
    }
}

/// A run of digits with a byte that is no digit stands for no number.
proof fn lemma_digits_value_none(digits: Seq<u8>, k: int)
    requires
        0 <= k < digits.len(),
        !(48 <= digits[k] <= 57),
    ensures
        digits_value(digits) is None,
    decreases digits.len(),
{
    if k < digits.len() - 1 {
        lemma_digits_value_none(digits.drop_last(), k);
    }
}

/// Reads the index of a port: decimal digits, after a plus sign or without
/// one.
fn parse_index_bytes(text: &[u8], from: usize) -> (r: Option<u8>)
    requires
        from <= text@.len(),
    ensures
        r == parse_index(text@.subrange(from as int, text@.len() as int)),
{
    let ghost whole = text@.subrange(from as int, text@.len() as int);
    let mut start = from;
    if start < text.len() && text[start] == 43 {
        start += 1;
    }
    let ghost digits = text@.subrange(start as int, text@.len() as int);
    proof {
        if start > from {
            assert(digits =~= whole.subrange(1, whole.len() as int));
        }
    }
    if start == text.len() {
        return None;
    }
    let mut value: u16 = 0;
    let mut k: usize = start;
    proof {
        assert(digits.take(0) =~= Seq::<u8>::empty());
    }
    while k < text.len()
        invariant
            from <= start <= k <= text@.len(),
            start < text@.len(),
            digits == text@.subrange(start as int, text@.len() as int),
            parse_index(text@.subrange(from as int, text@.len() as int)) == match digits_value(
                digits,
            ) {
                Some(value) => if value <= 255 {
                    Some(value as u8)
                } else {
                    None
                },
                None => None,
            },
            digits_value(digits.take(k - start)) == Some(value as int),
            value <= 255,
        decreases text@.len() - k,
    {
        let byte = text[k];
        proof {
            assert(digits[k - start] == byte);
            assert(digits.take(k - start + 1).drop_last() =~= digits.take(k - start));
        }
        if byte < 48 || byte > 57 {
            proof {
                lemma_digits_value_none(digits, k - start);
            }
            return None;
        }
        value = value * 10 + (byte - 48) as u16;
        if value > 255 {
            proof {
                if digits_value(digits) is Some {
                    lemma_digits_value_grows(digits, k - start + 1);
                }
            }
            return None;
        }
        k += 1;
    }
    proof {
        assert(digits.take(k - start) =~= digits);
    }
    Some(value as u8)
}

impl Port {
    /// Reads the name of a port, such as `Ax0` or `Ly7`.
    pub fn parse(text: &[u8]) -> (r: Result<Port, InvalidPort>)
        ensures
            match parse_port(text@) {
                Some(port) => r == Ok::<Port, InvalidPort>(port),
                None => r is Err,
            },
    {
        if text.len() < 2 {
            return Err(InvalidPort);
        }
        let chip_id = match ChipId::try_from_ascii(text[0]) {
            Some(chip_id) => chip_id,
            None => {
                return Err(InvalidPort);
            },
        };
        let dimension = if text[1] == 120 || text[1] == 88 {
            Dimension::X
        } else if text[1] == 121 || text[1] == 89 {
            Dimension::Y
        } else {
            return Err(InvalidPort);
        };
        let index = match parse_index_bytes(text, 2) {
            Some(index) => index,
            None => {
                return Err(InvalidPort);
            },
        };
        if index > dimension.port_count() - 1 {
            return Err(InvalidPort);
        }
        Ok(Port(chip_id, dimension, index))
    }
}

impl core::str::FromStr for Port {
    type Err = InvalidPort;

    /// Reads the name of a port, such as `Ax0` or `Ly7`.
    fn from_str(s: &str) -> (r: Result<Self, Self::Err>)
        ensures
            match parse_port(s.spec_bytes()) {
                Some(port) => r == Ok::<Port, InvalidPort>(port),
                None => r is Err,
            },
    {
        Port::parse(s.as_bytes())
    }
}

} // verus!
