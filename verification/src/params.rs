//! The knobs on the instrument, and the nodes they belong to.

use vstd::prelude::*;

verus! {

/// A kind of node the focus points at, and so one of the surface's three
/// rows of select buttons.
#[derive(Clone, Copy, Debug, PartialEq, Eq, Structural)]
pub enum Node {
    Camera,
    Monitor,
    Switcher,
}

impl Node {
    /// Every kind of node, in the order the select rows run.
    pub const ALL: [Node; 3] = [Node::Camera, Node::Monitor, Node::Switcher];

    /// The kind's name, as the log line and an error spell it.
    pub open spec fn spec_name(self) -> Seq<char> {
        match self {
            Node::Camera => "camera"@,
            Node::Monitor => "monitor"@,
            Node::Switcher => "switcher"@,
        }
    }

    /// The kind in the words the on-screen overlay's captions have room for.
    pub open spec fn spec_short(self) -> Seq<char> {
        match self {
            Node::Camera => "cam"@,
            Node::Monitor => "mon"@,
            Node::Switcher => "sw"@,
        }
    }

    pub fn name(self) -> (name: &'static str)
        ensures
            name@ == self.spec_name(),
    {
        match self {
            Node::Camera => "camera",
            Node::Monitor => "monitor",
            Node::Switcher => "switcher",
        }
    }

    pub fn short(self) -> (short: &'static str)
        ensures
            short@ == self.spec_short(),
    {
        match self {
            Node::Camera => "cam",
            Node::Monitor => "mon",
            Node::Switcher => "sw",
        }
    }
}

/// Which camera, which monitor and which switcher the knobs act on.
#[derive(Clone, Copy, Debug, Default, PartialEq, Eq, Structural)]
pub struct Focus {
    pub camera: usize,
    pub monitor: usize,
    pub switcher: usize,
}

impl Focus {
    /// The index the focus holds for `node`.
    pub open spec fn index(self, node: Node) -> usize {
        match node {
            Node::Camera => self.camera,
            Node::Monitor => self.monitor,
            Node::Switcher => self.switcher,
        }
    }

    pub fn at(self, node: Node) -> (index: usize)
        ensures
            index == self.index(node),
    {
        match node {
            Node::Camera => self.camera,
            Node::Monitor => self.monitor,
            Node::Switcher => self.switcher,
        }
    }

    /// The focus with its index of `node` moved to `index`.
    pub open spec fn moved(self, node: Node, index: usize) -> Focus {
        match node {
            Node::Camera => Focus { camera: index, ..self },
            Node::Monitor => Focus { monitor: index, ..self },
            Node::Switcher => Focus { switcher: index, ..self },
        }
    }

    pub fn with(self, node: Node, index: usize) -> (moved: Focus)
        ensures
            moved == self.moved(node, index),
            moved.index(node) == index,
            forall|other: Node| other != node ==> moved.index(other) == self.index(other),
    {
        let mut moved = self;
        match node {
            Node::Camera => moved.camera = index,
            Node::Monitor => moved.monitor = index,
            Node::Switcher => moved.switcher = index,
        }
        moved
    }
}

/// A value on the instrument a fader or a rotary turns.
#[derive(Clone, Copy, Debug, PartialEq, Eq, Structural)]
pub enum Knob {
    /// The camera's slide along its shaft, which is what a zoom of the image
    /// is at this end.
    Zoom,
    /// The camera's turn about its shaft.
    Rotation,
    /// The frame delay unit on the camera's cable, in whole frames.
    Delay,
    Hue,
    Saturation,
    Brightness,
    Contrast,
    Temperature,
    Sharpness,
    /// How far the focused switcher stands toward its In2: 0 is In1 whole, 1
    /// is In2 whole.
    Switcher,
    /// Passes between reversals of the focused switcher. Zero is the mode
    /// off.
    Period,
}

/// Which node a knob's value belongs to, and so which of a [`Focus`]'s
/// indices it reads.
#[derive(Clone, Copy, Debug, PartialEq, Eq, Structural)]
pub enum Side {
    Camera,
    Monitor,
    Switcher,
}

impl Side {
    /// Whether the focus's index of `node` addresses a knob on this side.
    pub open spec fn spec_reads(self, node: Node) -> bool {
        match (self, node) {
            (Side::Camera, Node::Camera) => true,
            (Side::Monitor, Node::Monitor) => true,
            (Side::Switcher, Node::Switcher) => true,
            _ => false,
        }
    }

    pub fn reads(self, node: Node) -> (reads: bool)
        ensures
            reads == self.spec_reads(node),
    {
        match (self, node) {
            (Side::Camera, Node::Camera) => true,
            (Side::Monitor, Node::Monitor) => true,
            (Side::Switcher, Node::Switcher) => true,
            _ => false,
        }
    }
}

/// Every knob, in the order the readout lists them.
pub open spec fn knobs() -> Seq<Knob> {
    seq![
        Knob::Zoom,
        Knob::Rotation,
        Knob::Delay,
        Knob::Hue,
        Knob::Saturation,
        Knob::Brightness,
        Knob::Contrast,
        Knob::Temperature,
        Knob::Sharpness,
        Knob::Switcher,
        Knob::Period,
    ]
}

impl Knob {
    /// Every knob, in the order the readout lists them.
    pub const ALL: [Knob; 11] = [
        Knob::Zoom,
        Knob::Rotation,
        Knob::Delay,
        Knob::Hue,
        Knob::Saturation,
        Knob::Brightness,
        Knob::Contrast,
        Knob::Temperature,
        Knob::Sharpness,
        Knob::Switcher,
        Knob::Period,
    ];

    /// Where the knob stands in [`Knob::ALL`].
    pub open spec fn spec_index(self) -> nat {
        match self {
            Knob::Zoom => 0,
            Knob::Rotation => 1,
            Knob::Delay => 2,
            Knob::Hue => 3,
            Knob::Saturation => 4,
            Knob::Brightness => 5,
            Knob::Contrast => 6,
            Knob::Temperature => 7,
            Knob::Sharpness => 8,
            Knob::Switcher => 9,
            Knob::Period => 10,
        }
    }

    /// The one name a knob has: in the printed help, in an error, and in a
    /// config file.
    pub open spec fn spec_name(self) -> Seq<char> {
        match self {
            Knob::Zoom => "zoom"@,
            Knob::Rotation => "rotation"@,
            Knob::Delay => "delay"@,
            Knob::Hue => "hue"@,
            Knob::Saturation => "saturation"@,
            Knob::Brightness => "brightness"@,
            Knob::Contrast => "contrast"@,
            Knob::Temperature => "temperature"@,
            Knob::Sharpness => "sharpness"@,
            Knob::Switcher => "switcher"@,
            Knob::Period => "period"@,
        }
    }

    /// Which of a [`Focus`]'s indices the knob reads.
    pub open spec fn spec_side(self) -> Side {
        match self {
            Knob::Zoom | Knob::Rotation | Knob::Delay => Side::Camera,
            Knob::Hue | Knob::Saturation | Knob::Brightness | Knob::Contrast | Knob::Temperature
            | Knob::Sharpness => Side::Monitor,
            Knob::Switcher | Knob::Period => Side::Switcher,
        }
    }

    pub fn index(self) -> (index: usize)
        ensures
            index == self.spec_index(),
            index < 11,
            knobs()[index as int] == self,
    {
        match self {
            Knob::Zoom => 0,
            Knob::Rotation => 1,
            Knob::Delay => 2,
            Knob::Hue => 3,
            Knob::Saturation => 4,
            Knob::Brightness => 5,
            Knob::Contrast => 6,
            Knob::Temperature => 7,
            Knob::Sharpness => 8,
            Knob::Switcher => 9,
            Knob::Period => 10,
        }
    }

    pub fn name(self) -> (name: &'static str)
        ensures
            name@ == self.spec_name(),
    {
        match self {
            Knob::Zoom => "zoom",
            Knob::Rotation => "rotation",
            Knob::Delay => "delay",
            Knob::Hue => "hue",
            Knob::Saturation => "saturation",
            Knob::Brightness => "brightness",
            Knob::Contrast => "contrast",
            Knob::Temperature => "temperature",
            Knob::Sharpness => "sharpness",
            Knob::Switcher => "switcher",
            Knob::Period => "period",
        }
    }

    /// The knob called `name`, if there is one.
    pub fn from_name(name: &str) -> (knob: Option<Knob>)
        ensures
            match knob {
                Some(k) => k.spec_name() == name@,
                None => forall|k: Knob| k.spec_name() != name@,
            },
    {
        let mut i: usize = 0;
        while i < 11
            invariant
                i <= 11,
                forall|j: int| 0 <= j < i ==> knobs()[j].spec_name() != name@,
            decreases 11 - i,
        {
            let knob = Knob::at(i);
            if same_text(knob.name(), name) {
                return Some(knob);
            }
            i = i + 1;
        }
        proof {
            assert forall|k: Knob| k.spec_name() != name@ by {
                assert(knobs()[k.spec_index() as int] == k);
            }
        }
        None
    }

    /// The knob at `index` of [`Knob::ALL`].
    pub fn at(index: usize) -> (knob: Knob)
        requires
            index < 11,
        ensures
            knob == knobs()[index as int],
    {
        match index {
            0 => Knob::Zoom,
            1 => Knob::Rotation,
            2 => Knob::Delay,
            3 => Knob::Hue,
            4 => Knob::Saturation,
            5 => Knob::Brightness,
            6 => Knob::Contrast,
            7 => Knob::Temperature,
            8 => Knob::Sharpness,
            9 => Knob::Switcher,
            _ => Knob::Period,
        }
    }

    /// The kind of node the knob's value belongs to.
    pub open spec fn spec_node(self) -> Node {
        match self.spec_side() {
            Side::Camera => Node::Camera,
            Side::Monitor => Node::Monitor,
            Side::Switcher => Node::Switcher,
        }
    }

    pub fn node(self) -> (node: Node)
        ensures
            node == self.spec_node(),
    {
        match self.side() {
            Side::Camera => Node::Camera,
            Side::Monitor => Node::Monitor,
            Side::Switcher => Node::Switcher,
        }
    }

    pub fn side(self) -> (side: Side)
        ensures
            side == self.spec_side(),
    {
        match self {
            Knob::Zoom | Knob::Rotation | Knob::Delay => Side::Camera,
            Knob::Hue | Knob::Saturation | Knob::Brightness | Knob::Contrast | Knob::Temperature
            | Knob::Sharpness => Side::Monitor,
            Knob::Switcher | Knob::Period => Side::Switcher,
        }
    }
}

/// Whether two pieces of text are the same characters.
pub fn same_text(a: &str, b: &str) -> (same: bool)
    ensures
        same == (a@ == b@),
{
    let n = a.unicode_len();
    if n != b.unicode_len() {
        return false;
    }
    let mut i: usize = 0;
    while i < n
        invariant
            n == a@.len(),
            n == b@.len(),
            i <= n,
            forall|j: int| 0 <= j < i ==> a@[j] == b@[j],
        decreases n - i,
    {
        if a.get_char(i) != b.get_char(i) {
            return false;
        }
        i = i + 1;
    }
    proof {
        assert(a@ =~= b@);
    }
    true
}

/// A knob's name is the knob: reading it back gives the knob that wrote
/// it, and no two knobs share one, so none is unreachable from a config
/// file.
pub proof fn lemma_a_name_is_one_knob(knob: Knob, other: Knob)
    ensures
        knob != other ==> knob.spec_name() != other.spec_name(),
        knobs()[knob.spec_index() as int] == knob,
{
    reveal_strlit("zoom");
    reveal_strlit("rotation");
    reveal_strlit("delay");
    reveal_strlit("hue");
    reveal_strlit("saturation");
    reveal_strlit("brightness");
    reveal_strlit("contrast");
    reveal_strlit("temperature");
    reveal_strlit("sharpness");
    reveal_strlit("switcher");
    reveal_strlit("period");
    if knob != other {
        assert(knob.spec_name().len() != other.spec_name().len() || knob.spec_name()[0]
            != other.spec_name()[0] || knob.spec_name()[1] != other.spec_name()[1]
            || knob.spec_name()[2] != other.spec_name()[2]);
    }
}

} // verus!
