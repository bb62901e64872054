//! Walks over the rig's nodes.

use vstd::prelude::*;
use crate::params::{Focus, Node};
use crate::rig::{count, spec_count};
use crate::text::{decimal, push_decimal};

verus! {

/// How many distinct places a walk over `side` steps on `node`: every node
/// of that kind when the side reads it, and just the first otherwise.
pub open spec fn span(side: Option<Node>, node: Node) -> nat {
    if side == Some(node) {
        spec_count(node) as nat
    } else {
        1
    }
}

/// The `i`th focus of a walk over `side`, cameras slowest and switchers
/// fastest.
pub open spec fn nth_focus(side: Option<Node>, i: nat) -> Focus {
    let m = span(side, Node::Monitor);
    let s = span(side, Node::Switcher);
    Focus {
        camera: (i / (m * s)) as usize,
        monitor: ((i / s) % m) as usize,
        switcher: (i % s) as usize,
    }
}

/// Every focus at which a knob on `side`, or the rig's for none, names a
/// value of its own: only the indices the side reads are walked, and the
/// rest stay at zero, since a knob on any other side never reads them.
pub fn focuses(side: Option<Node>) -> (walk: Vec<Focus>)
    ensures
        walk@.len() == span(side, Node::Camera) * span(side, Node::Monitor) * span(side, Node::Switcher),
        forall|i: int| 0 <= i < walk@.len() ==> #[trigger] walk@[i] == nth_focus(side, i as nat),
{
    let cameras = if side == Some(Node::Camera) { count(Node::Camera) } else { 1 };
    let monitors = if side == Some(Node::Monitor) { count(Node::Monitor) } else { 1 };
    let switchers = if side == Some(Node::Switcher) { count(Node::Switcher) } else { 1 };
    let mut walk: Vec<Focus> = Vec::new();
    let mut camera: usize = 0;
    while camera < cameras
        invariant
            cameras == span(side, Node::Camera),
            monitors == span(side, Node::Monitor),
            switchers == span(side, Node::Switcher),
            1 <= cameras <= 5,
            1 <= monitors <= 5,
            1 <= switchers <= 5,
            camera <= cameras,
            walk@.len() == camera * monitors * switchers,
            forall|i: int| 0 <= i < walk@.len() ==> #[trigger] walk@[i] == nth_focus(side, i as nat),
        decreases cameras - camera,
    {
        let mut monitor: usize = 0;
        while monitor < monitors
            invariant
                cameras == span(side, Node::Camera),
                monitors == span(side, Node::Monitor),
                switchers == span(side, Node::Switcher),
                1 <= cameras <= 5,
                1 <= monitors <= 5,
                1 <= switchers <= 5,
                camera < cameras,
                monitor <= monitors,
                walk@.len() == (camera * monitors + monitor) * switchers,
                forall|i: int| 0 <= i < walk@.len() ==> #[trigger] walk@[i] == nth_focus(side, i as nat),
            decreases monitors - monitor,
        {
            let mut switcher: usize = 0;
            while switcher < switchers
                invariant
                    cameras == span(side, Node::Camera),
                    monitors == span(side, Node::Monitor),
                    switchers == span(side, Node::Switcher),
                    1 <= cameras <= 5,
                    1 <= monitors <= 5,
                    1 <= switchers <= 5,
                    camera < cameras,
                    monitor < monitors,
                    switcher <= switchers,
                    walk@.len() == (camera * monitors + monitor) * switchers + switcher,
                    forall|i: int| 0 <= i < walk@.len() ==> #[trigger] walk@[i] == nth_focus(side, i as nat),
                decreases switchers - switcher,
            {
                let ghost i: int = walk@.len() as int;
                proof {
                    let m = monitors as int;
                    let s = switchers as int;
                    let c = camera as int;
                    let mo = monitor as int;
                    let sw = switcher as int;
                    assert(i == (c * m + mo) * s + sw);
                    assert(i / (m * s) == c && (i / s) % m == mo && i % s == sw) by (nonlinear_arith)
                        requires
                            i == (c * m + mo) * s + sw,
                            0 <= sw < s,
                            0 <= mo < m,
                            0 <= c,
                            m >= 1,
                            s >= 1,
                    ;
                }
                walk.push(Focus { camera, monitor, switcher });
                switcher = switcher + 1;
            }
            assert((camera * monitors + monitor) * switchers + switchers == (camera * monitors + monitor + 1) * switchers) by (nonlinear_arith);
            monitor = monitor + 1;
        }
        assert((camera * monitors + monitors) * switchers == (camera + 1) * monitors * switchers) by (nonlinear_arith);
        camera = camera + 1;
    }
    walk
}

/// The furthest the delay units reach, in frames. A frame of reach is a copy
/// of every monitor in the bank, so it is bought in memory, not in taps.
pub const MAX_DELAY: u32 = 30;

/// Why a graph whose delay units reach `delay` frames is refused.
pub open spec fn reach_refusal(delay: u32) -> Seq<char> {
    "the delay units reach "@ + decimal(delay as nat) + " frames; at most "@ + decimal(
        MAX_DELAY as nat,
    )
}

/// A graph's reach against what the units have: refused past
/// [`MAX_DELAY`], and said why.
pub fn check_reach(delay: u32) -> (checked: Result<(), String>)
    ensures
        checked is Ok <==> delay <= MAX_DELAY,
        checked matches Err(why) ==> why@ == reach_refusal(delay),
{
    if delay > MAX_DELAY {
        let mut why = String::from_str("the delay units reach ");
        push_decimal(&mut why, delay as u64);
        why.append(" frames; at most ");
        push_decimal(&mut why, MAX_DELAY as u64);
        proof {
            reveal_strlit("the delay units reach ");
        }
        Err(why)
    } else {
        Ok(())
    }
}

/// Why camera `camera`'s delay of `delay` frames is refused under a reach of
/// `reach`: the delay knob's rail is the reach.
pub open spec fn delay_refusal(camera: nat, delay: u32, reach: u32) -> Seq<char> {
    "camera "@ + decimal(camera) + "'s delay is "@ + decimal(delay as nat) + "; it runs 0 to "@
        + decimal(reach as nat)
}

/// A graph's delays: each camera's, `delays` in camera order, inside the
/// reach `reach`, and the reach inside what the units have. The first
/// camera past the reach is the one named; only with every camera inside it
/// is the reach itself held to [`MAX_DELAY`].
pub fn check_delays(reach: u32, delays: &[u32]) -> (checked: Result<(), String>)
    ensures
        checked is Ok <==> (forall|i: int| 0 <= i < delays@.len() ==> delays@[i] <= reach) && reach
            <= MAX_DELAY,
        checked matches Err(why) ==> if (forall|i: int|
            0 <= i < delays@.len() ==> delays@[i] <= reach) {
            why@ == reach_refusal(reach)
        } else {
            exists|i: int|
                0 <= i < delays@.len() && delays@[i] > reach && (forall|j: int|
                    0 <= j < i ==> delays@[j] <= reach) && why@ == delay_refusal(
                    i as nat,
                    delays@[i],
                    reach,
                )
        },
{
    let mut i: usize = 0;
    while i < delays.len()
        invariant
            i <= delays@.len(),
            forall|j: int| 0 <= j < i ==> delays@[j] <= reach,
        decreases delays@.len() - i,
    {
        if delays[i] > reach {
            let mut why = String::from_str("camera ");
            push_decimal(&mut why, i as u64);
            why.append("'s delay is ");
            push_decimal(&mut why, delays[i] as u64);
            why.append("; it runs 0 to ");
            push_decimal(&mut why, reach as u64);
            proof {
                reveal_strlit("camera ");
                assert(why@ == delay_refusal(i as nat, delays@[i as int], reach));
            }
            return Err(why);
        }
        i = i + 1;
    }
    check_reach(reach)
}

} // verus!
