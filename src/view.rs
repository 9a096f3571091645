//! Viewing orientations and the volume axis each of them looks along.
use vstd::prelude::*;
use vstd::string::StringSliceAdditionalSpecFns;
use vstd::view::View as _;
use vstd::utf8::encode_utf8_decode_utf8;

verus! {

/// The three physical axes of a volume, in storage order.
#[derive(Clone, Copy, Debug, PartialEq, Eq, Structural)]
pub enum Axis {
    Sagittal,
    Coronal,
    Axial,
}

/// Position of an axis in the volume's dimensions.
pub open spec fn axis_index(axis: Axis) -> nat {
    match axis {
        Axis::Sagittal => 0,
        Axis::Coronal => 1,
        Axis::Axial => 2,
    }
}

impl Axis {
    /// Position of this axis in the volume's dimensions.
    pub fn index(&self) -> (r: usize)
        ensures
            r as nat == axis_index(*self),
    {
        match self {
            Axis::Sagittal => 0,
            Axis::Coronal => 1,
            Axis::Axial => 2,
        }
    }
}

/// The six orientations from which a volume can be looked at.
#[derive(Clone, Copy, Debug, PartialEq, Eq, Structural)]
pub enum View {
    Left,
    Right,
    Anterior,
    Posterior,
    Superior,
    Inferior,
}

/// The axis a view looks along.
pub open spec fn view_axis(v: View) -> Axis {
    match v {
        View::Left | View::Right => Axis::Sagittal,
        View::Anterior | View::Posterior => Axis::Coronal,
        View::Superior | View::Inferior => Axis::Axial,
    }
}

impl View {
    /// The axis this view looks along.
    pub fn axis(&self) -> (r: Axis)
        ensures
            r == view_axis(*self),
    {
        match self {
            View::Left | View::Right => Axis::Sagittal,
            View::Anterior | View::Posterior => Axis::Coronal,
            View::Superior | View::Inferior => Axis::Axial,
        }
    }
}

/// The lower-case name of a view.
pub open spec fn view_name(v: View) -> Seq<char> {
    match v {
        View::Left => "left"@,
        View::Right => "right"@,
        View::Anterior => "anterior"@,
        View::Posterior => "posterior"@,
        View::Superior => "superior"@,
        View::Inferior => "inferior"@,
    }
}

proof fn lemma_names_distinct(v: View, w: View)
    requires
        view_name(v) == view_name(w),
    ensures
        v == w,
{
    reveal_strlit("left");
    reveal_strlit("right");
    reveal_strlit("anterior");
    reveal_strlit("posterior");
    reveal_strlit("superior");
    reveal_strlit("inferior");
    assert("left"@.len() == 4 && "right"@.len() == 5 && "posterior"@.len() == 9);
    assert("anterior"@.len() == 8 && "superior"@.len() == 8 && "inferior"@.len() == 8);
    assert("anterior"@[0] == 'a' && "superior"@[0] == 's' && "inferior"@[0] == 'i');
    assert(view_name(v).len() == view_name(w).len());
    assert(view_name(v)[0] == view_name(w)[0]);
    match v {
        View::Anterior | View::Superior | View::Inferior => {
            assert(w == View::Anterior || w == View::Superior || w == View::Inferior);
        },
        _ => {},
    }
}

fn bytes_equal(a: &[u8], b: &[u8]) -> (r: bool)
    ensures
        r == (a@ == b@),
{
    if a.len() != b.len() {
        return false;
    }
    let mut i: usize = 0;
    while i < a.len()
        invariant
            a@.len() == b@.len(),
            i <= a@.len(),
            forall|k: int| 0 <= k < i ==> a@[k] == b@[k],
        decreases a@.len() - i,
    {
        if a[i] != b[i] {
            return false;
        }
        i += 1;
    }
    assert(a@ =~= b@);
    true
}

/// Whether `s` is the name `name`, compared byte by byte.
fn is_named(s: &str, name: &str) -> (r: bool)
    ensures
        r == (s@ == name@),
{
    let r = bytes_equal(s.as_bytes(), name.as_bytes());
    proof {
        encode_utf8_decode_utf8(s@);
        encode_utf8_decode_utf8(name@);
    }
    r
}

impl View {
    /// The lower-case name of this view, used in file names.
    pub fn name(&self) -> (r: &'static str)
        ensures
            r@ == view_name(*self),
    {
        match self {
            View::Left => "left",
            View::Right => "right",
            View::Anterior => "anterior",
            View::Posterior => "posterior",
            View::Superior => "superior",
            View::Inferior => "inferior",
        }
    }

    /// The view whose name is `s`, if any.
    pub fn from_name(s: &str) -> (r: Option<View>)
        ensures
            forall|v: View| r == Some(v) <==> s@ == view_name(v),
    {
        proof {
            reveal_strlit("left");
            reveal_strlit("right");
            reveal_strlit("anterior");
            reveal_strlit("posterior");
            reveal_strlit("superior");
            reveal_strlit("inferior");
        }
        let all = [View::Left, View::Right, View::Anterior, View::Posterior, View::Superior, View::Inferior];
        let mut i: usize = 0;
        while i < 6
            invariant
                all@ == seq![View::Left, View::Right, View::Anterior, View::Posterior, View::Superior, View::Inferior],
                i <= 6,
                forall|k: int| 0 <= k < i ==> s@ != view_name(#[trigger] all@[k]),
            decreases 6 - i,
        {
            let v = all[i];
            if is_named(s, v.name()) {
                proof {
                    assert forall|w: View| s@ == view_name(w) implies w == v by {
                        lemma_names_distinct(v, w);
                    }
                }
                return Some(v);
            }
            i += 1;
        }
        assert forall|v: View| s@ != view_name(v) by {
            assert(all@.contains(v));
        }
        None
    }
}

} // verus!
