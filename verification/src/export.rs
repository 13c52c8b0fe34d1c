//! Export/import of gesture schemes: a versioned snapshot (slots + options;
//! machine-local passthrough nodes are deliberately not exported), plus
//! importing raw .kdl gesture fragments.

use vstd::prelude::*;
use crate::model::{
    ActionValue, ActionValueV, GestureModel, ModelV, Options, Slot, default_model, slot_index, slot_value,
    values_view, strings_view, with_slot, parse_file,
};
use crate::text::{owned, push_str};

verus! {

/// Version of the scheme format this library writes and understands.
pub const SCHEMA: u32 = 1;

pub const APP: &'static str = "niri-tablet-easysetup";

/// Version recorded in exported schemes.
pub const APP_VERSION: &'static str = "0.1.0";

/// An exported scheme: format version, producer, and the slot values by
/// export key, plus the options.
#[derive(PartialEq, Debug)]
pub struct Scheme {
    pub schema: u32,
    pub app: String,
    pub app_version: String,
    pub slots: Vec<(String, ActionValue)>,
    pub options: Options,
}

/// Unique, human-stable key of a slot in exported schemes.
pub open spec fn export_key_of(s: Slot) -> Seq<char> {
    match s {
        Slot::Tap => "tap"@,
        Slot::TapMore => "tap-4"@,
        Slot::SwipeMoreUp => "swipe-4-up"@,
        Slot::SwipeMoreDown => "swipe-4-down"@,
        Slot::HoldLeft => "hold-left"@,
        Slot::HoldRight => "hold-right"@,
        Slot::HoldUp => "hold-up"@,
        Slot::HoldDown => "hold-down"@,
        Slot::EdgeBottom => "edge-bottom"@,
        Slot::EdgeTop => "edge-top"@,
        Slot::EdgeLeft => "edge-left"@,
        Slot::EdgeRight => "edge-right"@,
        Slot::CornerTopLeft => "corner-top-left"@,
        Slot::CornerTopRight => "corner-top-right"@,
        Slot::CornerBottomLeft => "corner-bottom-left"@,
        Slot::CornerBottomRight => "corner-bottom-right"@,
    }
}

/// Every slot, in display order.
pub open spec fn all_slots() -> Seq<Slot> {
    seq![
        Slot::Tap,
        Slot::TapMore,
        Slot::SwipeMoreUp,
        Slot::SwipeMoreDown,
        Slot::HoldLeft,
        Slot::HoldRight,
        Slot::HoldUp,
        Slot::HoldDown,
        Slot::EdgeBottom,
        Slot::EdgeTop,
        Slot::EdgeLeft,
        Slot::EdgeRight,
        Slot::CornerTopLeft,
        Slot::CornerTopRight,
        Slot::CornerBottomLeft,
        Slot::CornerBottomRight,
    ]
}

/// The first slot of `ss` whose export key is `k`.
pub open spec fn slot_with_key(ss: Seq<Slot>, k: Seq<char>) -> Option<Slot>
    decreases ss.len(),
{
    if ss.len() == 0 {
        None
    } else if export_key_of(ss[0]) == k {
        Some(ss[0])
    } else {
        slot_with_key(ss.drop_first(), k)
    }
}

impl Slot {
    /// Unique, human-stable key ("tap", "hold-left", "edge-bottom",
    /// "corner-top-left"). The plain KDL ids repeat between sections (hold
    /// left / edge left are both "left"), so exports use these.
    pub fn export_key(&self) -> (r: &'static str)
        ensures
            r@ == export_key_of(*self),
    {
        match self {
            Slot::Tap => "tap",
            Slot::TapMore => "tap-4",
            Slot::SwipeMoreUp => "swipe-4-up",
            Slot::SwipeMoreDown => "swipe-4-down",
            Slot::HoldLeft => "hold-left",
            Slot::HoldRight => "hold-right",
            Slot::HoldUp => "hold-up",
            Slot::HoldDown => "hold-down",
            Slot::EdgeBottom => "edge-bottom",
            Slot::EdgeTop => "edge-top",
            Slot::EdgeLeft => "edge-left",
            Slot::EdgeRight => "edge-right",
            Slot::CornerTopLeft => "corner-top-left",
            Slot::CornerTopRight => "corner-top-right",
            Slot::CornerBottomLeft => "corner-bottom-left",
            Slot::CornerBottomRight => "corner-bottom-right",
        }
    }

    /// The slot an export key names, if any.
    pub fn from_export_key(k: &str) -> (r: Option<Slot>)
        ensures
            r == slot_with_key(all_slots(), k@),
    {
        let all = Slot::ALL;
        assert(all@ == all_slots());
        assert(all@.skip(0) =~= all@);
        let mut i: usize = 0;
        while i < 16
            invariant
                all@ == all_slots(),
                i <= 16,
                slot_with_key(all@.skip(i as int), k@) == slot_with_key(all_slots(), k@),
            decreases 16 - i,
        {
            assert(all@.skip(i as int)[0] == all@[i as int]);
            assert(all@.skip(i as int).drop_first() =~= all@.skip(i + 1));
            if crate::text::str_eq(all[i].export_key(), k) {
                return Some(all[i]);
            }
            i = i + 1;
        }
        assert(all@.skip(16) =~= Seq::<Slot>::empty());
        None
    }
}

/// The value of a scheme's slot list.
pub open spec fn pairs_view(p: Seq<(String, ActionValue)>) -> Seq<(Seq<char>, ActionValueV)> {
    Seq::new(p.len(), |i: int| (p[i].0@, p[i].1.view()))
}

/// The slot list exported for a model: every slot, in display order, by key.
pub open spec fn exported_slots(m: ModelV) -> Seq<(Seq<char>, ActionValueV)> {
    Seq::new(16, |i: int| (export_key_of(all_slots()[i]), slot_value(m, all_slots()[i])))
}

/// Snapshot of a model for export: slots and options (passthrough nodes and
/// notes stay on this machine).
pub fn to_scheme(model: &GestureModel) -> (s: Scheme)
    requires
        model.wf(),
    ensures
        s.schema == SCHEMA,
        s.app@ == APP@,
        s.app_version@ == APP_VERSION@,
        pairs_view(s.slots@) == exported_slots(model.view()),
        s.options == model.options,
{
    let all = Slot::ALL;
    assert(all@ == crate::export::all_slots());
    let mut slots: Vec<(String, ActionValue)> = Vec::new();
    let mut i: usize = 0;
    while i < 16
        invariant
            all@ == all_slots(),
            model.wf(),
            i <= 16,
            slots@.len() == i,
            forall|j: int| 0 <= j < i ==> (#[trigger] pairs_view(slots@)[j]) == exported_slots(model.view())[j],
        decreases 16 - i,
    {
        let s = all[i];
        let ghost before = slots@;
        slots.push((owned(s.export_key()), model.get(s).duplicate()));
        assert(pairs_view(slots@)[i as int] == exported_slots(model.view())[i as int]);
        assert forall|j: int| 0 <= j < i + 1 implies (#[trigger] pairs_view(slots@)[j]) == exported_slots(model.view())[j] by {
            if j < i {
                assert(pairs_view(slots@)[j] == pairs_view(before)[j]);
            }
        }
        i = i + 1;
    }
    assert(pairs_view(slots@) =~= exported_slots(model.view()));
    Scheme { schema: SCHEMA, app: owned(APP), app_version: owned(APP_VERSION), slots, options: model.options }
}

/// A scheme read back: the model, and the slot keys that this version does
/// not know (ignored).
pub struct Imported {
    pub model: GestureModel,
    /// Slot keys present in the file but unknown to this version.
    pub ignored_keys: Vec<String>,
}

/// Takes the scheme's slot entries in order into `m`: known keys set their
/// slot, unknown keys are collected.
pub open spec fn import_slots(m: ModelV, p: Seq<(Seq<char>, ActionValueV)>) -> (ModelV, Seq<Seq<char>>)
    decreases p.len(),
{
    if p.len() == 0 {
        (m, seq![])
    } else {
        let (m1, ign) = import_slots(m, p.drop_last());
        let (k, v) = p.last();
        match slot_with_key(all_slots(), k) {
            Some(s) => (with_slot(m1, s, v), ign),
            None => (m1, ign.push(k)),
        }
    }
}

/// The refusal of a scheme written by a newer version.
pub open spec fn newer_schema_error(schema: u32) -> Seq<char> {
    "scheme schema "@ + crate::text::decimal(schema as nat)
        + " is newer than this app understands (1); update niri-tablet-easysetup"@
}

/// Import a scheme. Unknown slot keys are ignored (and reported); unknown
/// future schema versions are rejected.
pub fn from_scheme(scheme: Scheme) -> (r: Result<Imported, String>)
    ensures
        scheme.schema > SCHEMA ==> r is Err && r->Err_0@ == newer_schema_error(scheme.schema),
        scheme.schema <= SCHEMA ==> r is Ok && {
            let imp = r->Ok_0;
            let (m, ign) = import_slots(default_model(), pairs_view(scheme.slots@));
            &&& imp.model.wf()
            &&& imp.model.view() == ModelV { options: scheme.options, ..m }
            &&& strings_view(imp.ignored_keys@) == ign
        },
{
    if scheme.schema > SCHEMA {
        let mut e = owned("scheme schema ");
        let d = crate::text::decimal_string(scheme.schema as u64);
        push_str(&mut e, d.as_str());
        push_str(&mut e, " is newer than this app understands (1); update niri-tablet-easysetup");
        return Err(e);
    }
    let ghost pairs = pairs_view(scheme.slots@);
    let options = scheme.options;
    let mut model = GestureModel::default();
    let mut ignored: Vec<String> = Vec::new();
    let mut slots = scheme.slots;
    assert(pairs.take(0) =~= Seq::<(Seq<char>, ActionValueV)>::empty());
    let mut i: usize = 0;
    let n = slots.len();
    while i < n
        invariant
            n == pairs.len(),
            i <= n,
            slots@.len() == n - i,
            forall|j: int| 0 <= j < n - i ==> (#[trigger] pairs_view(slots@)[j]) == pairs[i + j],
            model.wf(),
            (model.view(), strings_view(ignored@)) == import_slots(default_model(), pairs.take(i as int)),
        decreases n - i,
    {
        let ghost before = slots@;
        let (k, v) = slots.remove(0);
        assert(pairs_view(before)[0] == pairs[i as int]);
        assert(pairs.take(i + 1).drop_last() =~= pairs.take(i as int));
        assert(pairs.take(i + 1).last() == pairs[i as int]);
        match Slot::from_export_key(k.as_str()) {
            Some(slot) => model.set(slot, v),
            None => {
                let ghost old_ign = strings_view(ignored@);
                ignored.push(k);
                assert(strings_view(ignored@) =~= old_ign.push(pairs[i as int].0));
            },
        }
        assert forall|j: int| 0 <= j < n - (i + 1) implies (#[trigger] pairs_view(slots@)[j]) == pairs[i + 1 + j] by {
            assert(pairs_view(slots@)[j] == pairs_view(before)[j + 1]);
        }
        i = i + 1;
    }
    assert(pairs.take(n as int) =~= pairs);
    model.options = options;
    Ok(Imported { model, ignored_keys: ignored })
}

/// What importing a KDL file gives: the model of its `gestures` node, or why not.
pub open spec fn kdl_import(text: Seq<char>) -> Result<ModelV, Seq<char>> {
    match parse_file(text) {
        Ok(Some(m)) => Ok(m),
        Ok(None) => Err("no gestures block found in that file"@),
        Err(e) => Err(e),
    }
}

/// Import a raw KDL file: either a full gestures file (with the `gestures`
/// node) or the same content niri-tablet ships.
pub fn from_kdl_text(text: &str) -> (r: Result<GestureModel, String>)
    ensures
        match r {
            Ok(m) => m.wf() && kdl_import(text@) == Ok::<ModelV, Seq<char>>(m.view()),
            Err(e) => kdl_import(text@) == Err::<ModelV, Seq<char>>(e@),
        },
{
    match GestureModel::parse_file_text(text) {
        Ok(Some(m)) => Ok(m),
        Ok(None) => Err(owned("no gestures block found in that file")),
        Err(e) => Err(e),
    }
}

/// Export keys of different slots differ.
proof fn lemma_keys_distinct(i: int, j: int)
    requires
        0 <= i < 16,
        0 <= j < 16,
        i != j,
    ensures
        export_key_of(all_slots()[i]) != export_key_of(all_slots()[j]),
{
    reveal_strlit("tap");
    reveal_strlit("tap-4");
    reveal_strlit("swipe-4-up");
    reveal_strlit("swipe-4-down");
    reveal_strlit("hold-left");
    reveal_strlit("hold-right");
    reveal_strlit("hold-up");
    reveal_strlit("hold-down");
    reveal_strlit("edge-bottom");
    reveal_strlit("edge-top");
    reveal_strlit("edge-left");
    reveal_strlit("edge-right");
    reveal_strlit("corner-top-left");
    reveal_strlit("corner-top-right");
    reveal_strlit("corner-bottom-left");
    reveal_strlit("corner-bottom-right");
    assert("tap"@.len() == 3 && "tap-4"@.len() == 5 && "swipe-4-up"@.len() == 10 && "swipe-4-down"@.len() == 12);
    assert("hold-left"@.len() == 9 && "hold-right"@.len() == 10 && "hold-up"@.len() == 7 && "hold-down"@.len() == 9);
    assert("edge-bottom"@.len() == 11 && "edge-top"@.len() == 8 && "edge-left"@.len() == 9 && "edge-right"@.len() == 10);
    assert("corner-top-left"@.len() == 15 && "corner-top-right"@.len() == 16);
    assert("corner-bottom-left"@.len() == 18 && "corner-bottom-right"@.len() == 19);
    assert("hold-left"@[0] == 'h' && "hold-down"@[0] == 'h' && "edge-left"@[0] == 'e');
    assert("hold-left"@[5] == 'l' && "hold-down"@[5] == 'd');
    assert("swipe-4-up"@[0] == 's' && "hold-right"@[0] == 'h' && "edge-right"@[0] == 'e');
}

proof fn lemma_key_from(j: int, k: int)
    requires
        0 <= k <= j < 16,
    ensures
        slot_with_key(all_slots().skip(k), export_key_of(all_slots()[j])) == Some(all_slots()[j]),
    decreases j - k,
{
    let a = all_slots();
    assert(a.skip(k)[0] == a[k]);
    if k < j {
        lemma_keys_distinct(k, j);
        assert(a.skip(k).drop_first() =~= a.skip(k + 1));
        lemma_key_from(j, k + 1);
    }
}

/// Each slot's export key names that slot.
proof fn lemma_export_keys(j: int)
    requires
        0 <= j < 16,
    ensures
        slot_with_key(all_slots(), export_key_of(all_slots()[j])) == Some(all_slots()[j]),
        slot_index(all_slots()[j]) == j,
{
    lemma_key_from(j, 0);
    assert(all_slots().skip(0) =~= all_slots());
}

/// Every slot's export key reads back as that slot, and no two slots share
/// an export key.
pub proof fn law_export_keys(s: Slot, t: Slot)
    ensures
        slot_with_key(all_slots(), export_key_of(s)) == Some(s),
        s != t ==> export_key_of(s) != export_key_of(t),
{
    let i = slot_index(s);
    let j = slot_index(t);
    assert(0 <= i < 16 && all_slots()[i] == s);
    assert(0 <= j < 16 && all_slots()[j] == t);
    lemma_export_keys(i);
    if s != t {
        lemma_keys_distinct(i, j);
    }
}

/// Importing the first `k` exported entries into the default model.
proof fn lemma_import_prefix(m: ModelV, k: int)
    requires
        m.slots.len() == 16,
        0 <= k <= 16,
    ensures
        import_slots(default_model(), exported_slots(m).take(k)).0 == (ModelV {
            slots: Seq::new(16, |i: int| if i < k { m.slots[i] } else { ActionValueV::Unbound }),
            ..default_model()
        }),
        import_slots(default_model(), exported_slots(m).take(k)).1 == Seq::<Seq<char>>::empty(),
    decreases k,
{
    let p = exported_slots(m).take(k);
    if k == 0 {
        assert(p =~= Seq::<(Seq<char>, ActionValueV)>::empty());
        assert(default_model().slots =~= Seq::new(16, |i: int| if i < 0 { m.slots[i] } else { ActionValueV::Unbound }));
    } else {
        assert(p.drop_last() =~= exported_slots(m).take(k - 1));
        lemma_import_prefix(m, k - 1);
        lemma_export_keys(k - 1);
        let s = all_slots()[k - 1];
        assert(p.last() == (export_key_of(s), slot_value(m, s)));
        let prev = Seq::new(16, |i: int| if i < k - 1 { m.slots[i] } else { ActionValueV::Unbound });
        assert(prev.update(k - 1, m.slots[k - 1]) =~= Seq::new(16, |i: int| if i < k { m.slots[i] } else { ActionValueV::Unbound }));
    }
}

/// Exporting a model's slots and importing them back gives every slot as it
/// was, with no key reported unknown (options travel alongside unchanged).
pub proof fn law_scheme_roundtrip(m: ModelV)
    requires
        m.slots.len() == 16,
    ensures
        import_slots(default_model(), exported_slots(m)).0.slots == m.slots,
        import_slots(default_model(), exported_slots(m)).1 == Seq::<Seq<char>>::empty(),
{
    lemma_import_prefix(m, 16);
    assert(exported_slots(m).take(16) =~= exported_slots(m));
    assert(Seq::new(16, |i: int| if i < 16 { m.slots[i] } else { ActionValueV::Unbound }) =~= m.slots);
}

} // verus!
