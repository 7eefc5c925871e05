use vstd::prelude::*;

use crate::item::{
    ContainerModel, Item, ItemContainer, ItemModel, State, item_inv, items_inv, value_text,
};
use crate::numtext::{int_dec, parse_int_spec, unescape_minus};

verus! {

// ---------------------------------------------------------------------------
// Validation and commit rules
// ---------------------------------------------------------------------------

/// A numeric value forced into the declared bounds: values below the minimum
/// are raised to it, values above the maximum lowered to it; an absent bound
/// imposes no constraint. The minimum is applied first, as the commit rules
/// require.
pub open spec fn clamp_int(v: int, min: Option<int>, max: Option<int>) -> int {
    let lo = match min {
        Some(m) => if v < m {
            m
        } else {
            v
        },
        None => v,
    };
    match max {
        Some(m) => if lo > m {
            m
        } else {
            lo
        },
        None => lo,
    }
}

/// The outcome of finalizing an edit of one item from a selection index
/// and/or a submitted piece of text. `None` is a validation error: the edit
/// is rejected and the item keeps its value.
///
/// - booleans: selection 0 sets true, 1 sets false, anything else changes
///   nothing;
/// - integers: the text, its escaped minus signs normalized, must denote an
///   integer, which is then clamped into the declared bounds; no text
///   changes nothing;
/// - floats: the submitted text is stored as given (the host resolves and
///   clamps the numeric reading before submitting); no text changes nothing;
/// - strings: the text replaces the stored value verbatim;
/// - enumerations: the selection becomes the stored index if it lies inside
///   the option list, and is rejected otherwise.
pub open spec fn commit_item(it: ItemModel, sel: Option<int>, text: Option<Seq<char>>) -> Option<
    ItemModel,
> {
    match it {
        ItemModel::Bool { value } => Some(
            ItemModel::Bool {
                value: if sel == Some(0int) {
                    true
                } else if sel == Some(1int) {
                    false
                } else {
                    value
                },
            },
        ),
        ItemModel::Int { value, min, max } => match text {
            Some(t) => match parse_int_spec(unescape_minus(t)) {
                Some(n) => Some(ItemModel::Int { value: clamp_int(n, min, max), min, max }),
                None => None,
            },
            None => Some(it),
        },
        ItemModel::Float { value, min, max } => match text {
            Some(t) => Some(ItemModel::Float { value: t, min, max }),
            None => Some(it),
        },
        ItemModel::String { value } => match text {
            Some(t) => Some(ItemModel::String { value: t }),
            None => Some(it),
        },
        ItemModel::Enum { value, options } => match sel {
            Some(s) => if 0 <= s < options.len() {
                Some(ItemModel::Enum { value: s, options })
            } else {
                None
            },
            None => Some(it),
        },
    }
}

// ---------------------------------------------------------------------------
// Rendered lines and status message
// ---------------------------------------------------------------------------

/// One browsing-state line: the item's name, a separating colon, its value.
pub open spec fn browse_line(c: ContainerModel) -> Seq<char> {
    c.name + ": "@ + value_text(c.item)
}

/// The browsing-state lines: one per item, then the trailing "Apply" line.
pub open spec fn browse_entries(items: Seq<ContainerModel>) -> Seq<Seq<char>> {
    Seq::new(
        items.len() + 1,
        |i: int|
            if i < items.len() {
                browse_line(items[i])
            } else {
                "Apply"@
            },
    )
}

/// The editing-state lines for one item: the selectable input affordances of
/// its type, then the trailing "Cancel" line.
pub open spec fn edit_entries(it: ItemModel) -> Seq<Seq<char>> {
    match it {
        ItemModel::Bool { .. } => seq!["true"@, "false"@, "Cancel"@],
        ItemModel::Enum { options, .. } => options.push("Cancel"@),
        _ => seq!["Cancel"@],
    }
}

/// The note a bound contributes to the status message, or nothing when the
/// bound is absent.
pub open spec fn bound_note(label: Seq<char>, bound: Option<Seq<char>>) -> Seq<char> {
    match bound {
        Some(t) => label + t + ";"@,
        None => Seq::empty(),
    }
}

pub open spec fn opt_int_text(bound: Option<int>) -> Option<Seq<char>> {
    match bound {
        Some(v) => Some(int_dec(v)),
        None => None,
    }
}

/// The editing-state status message: the item's current value and, for
/// numeric items, its declared bounds.
pub open spec fn edit_message(it: ItemModel) -> Seq<char> {
    match it {
        ItemModel::Int { value, min, max } => "Old value: "@ + int_dec(value) + ";\r"@
            + bound_note("Min: "@, opt_int_text(min)) + " "@ + bound_note(
            "Max: "@,
            opt_int_text(max),
        ),
        ItemModel::Float { value, min, max } => "Old value: "@ + value + ";\r"@ + bound_note(
            "Min: "@,
            min,
        ) + " "@ + bound_note("Max: "@, max),
        _ => "Old value: "@ + value_text(it),
    }
}

// ---------------------------------------------------------------------------
// The session
// ---------------------------------------------------------------------------

/// The item set is malformed: an enumeration's initial index lies outside
/// its option list (which in particular rejects an empty option list).
#[derive(Debug)]
pub struct MalformedInput;

/// An edit was rejected; the item keeps its value and the session stays in
/// the editing state.
#[derive(Debug)]
pub struct ValidationError;

/// A host input event, delivered one at a time: a cancellation signal, the
/// selection of a line, the submission of free text, or a request to
/// complete the input from a line. Anything else is `Other` and is ignored.
pub enum Event {
    Cancel,
    Select { selected: usize },
    CustomInput { text: String },
    Complete { selected: Option<usize> },
    Other,
}

/// What the host must do after an event: redisplay the session's lines, or
/// serialize the item set as the session's output and terminate.
pub enum Action {
    Reload,
    Exit,
}

/// One editing session: the item set, whether the user is browsing or
/// editing one item, and the derived selectable lines and status message.
pub struct Mode {
    pub items: Vec<ItemContainer>,
    pub state: State,
    pub entries: Vec<String>,
    pub message: String,
}

impl Mode {
    /// The rendered lines agree with the given model lines.
    pub open spec fn entries_ok(self, lines: Seq<Seq<char>>) -> bool {
        &&& self.entries@.len() == lines.len()
        &&& forall|i: int| 0 <= i < lines.len() ==> #[trigger] self.entries@[i]@ == lines[i]
    }

    /// Well-formedness: every item satisfies its invariant, an edited
    /// position lies inside the item set, and the rendered lines and status
    /// message are exactly the ones derived from the current state — empty
    /// status and one line per item plus "Apply" while browsing, the item's
    /// affordances plus "Cancel" and its old value while editing.
    pub open spec fn wf(self) -> bool {
        &&& items_inv(self.items.deep_view())
        &&& match self.state {
            State::Main => {
                &&& self.entries_ok(browse_entries(self.items.deep_view()))
                &&& self.message@ == Seq::<char>::empty()
            },
            State::Editing(p) => {
                &&& (p as int) < self.items.deep_view().len()
                &&& self.entries_ok(edit_entries(self.items.deep_view()[p as int].item))
                &&& self.message@ == edit_message(self.items.deep_view()[p as int].item)
            },
        }
    }

    /// Creates a session over the given items, browsing, with the derived
    /// lines and an empty status. Fails exactly when some enumeration's
    /// index lies outside its option list.
    pub fn new(items: Vec<ItemContainer>) -> (r: Result<Mode, MalformedInput>)
        ensures
            match r {
                Ok(m) => {
                    &&& items_inv(items.deep_view())
                    &&& m.items == items
                    &&& m.state is Main
                    &&& m.wf()
                },
                Err(_) => !items_inv(items.deep_view()),
            },
    {
        let n = items.len();
        let mut i: usize = 0;
        while i < n
            invariant
                0 <= i <= n,
                n == items@.len(),
                forall|j: int| 0 <= j < i ==> item_inv(#[trigger] items.deep_view()[j].item),
            decreases n - i,
        {
            let ok = match &items[i].item {
                Item::Enum { value, options } => *value < options.len(),
                _ => true,
            };
            if !ok {
                proof {
                    assert(!item_inv(items.deep_view()[i as int].item));
                }
                return Err(MalformedInput);
            }
            proof {
                assert(item_inv(items.deep_view()[i as int].item));
            }
            i = i + 1;
        }
        let mut m = Mode {
            items,
            state: State::Main,
            entries: Vec::new(),
            message: String::new(),
        };
        m.entries_from_items();
        Ok(m)
    }

    /// Returns the session to browsing over the current items: one line per
    /// item, the trailing "Apply" line, an empty status message.
    pub fn entries_from_items(&mut self)
        requires
            items_inv(old(self).items.deep_view()),
        ensures
            final(self).items == old(self).items,
            final(self).state is Main,
            final(self).wf(),
    {
        self.state = State::Main;
        self.message = String::new();
        self.entries = Vec::new();
        let n = self.items.len();
        let mut i: usize = 0;
        while i < n
            invariant
                0 <= i <= n,
                n == self.items@.len(),
                self.items == old(self).items,
                self.state is Main,
                self.message@ == Seq::<char>::empty(),
                items_inv(self.items.deep_view()),
                self.entries@.len() == i,
                forall|j: int|
                    0 <= j < i ==> #[trigger] self.entries@[j]@ == browse_line(
                        self.items.deep_view()[j],
                    ),
            decreases n - i,
        {
            let mut line = self.items[i].name.clone();
            line.append(": ");
            proof {
                assert(item_inv(self.items.deep_view()[i as int].item));
                assert(self.items.deep_view()[i as int].item == self.items@[i as int].item.deep_view());
            }
            let v = self.items[i].item.get_value();
            line.append(v.as_str());
            proof {
                assert(line@ =~= browse_line(self.items.deep_view()[i as int]));
            }
            self.entries.push(line);
            i = i + 1;
        }
        self.entries.push(String::from_str("Apply"));
        proof {
            let lines = browse_entries(self.items.deep_view());
            assert forall|j: int| 0 <= j < lines.len() implies #[trigger] self.entries@[j]@
                == lines[j] by {
                if j < self.items.deep_view().len() {
                    assert(self.entries@[j]@ == browse_line(self.items.deep_view()[j]));
                }
            }
        }
    }

    /// Begins editing the item at the given position: the session moves to
    /// the editing state, the lines become the item type's input affordances
    /// followed by "Cancel", the status shows the item's current value and,
    /// for numeric items, its bounds. Returns the current value as text, for
    /// pre-filling a free-text input. The item set is left untouched.
    pub fn enter_edit(&mut self, item: usize) -> (r: String)
        requires
            old(self).wf(),
            old(self).state is Main,
            item < old(self).items@.len(),
        ensures
            final(self).items == old(self).items,
            final(self).state == State::Editing(item),
            final(self).wf(),
            r@ == value_text(old(self).items.deep_view()[item as int].item),
    {
        proof {
            assert(item_inv(self.items.deep_view()[item as int].item));
            assert(self.items.deep_view()[item as int].item == self.items@[item as int].item.deep_view());
        }
        let ghost model = self.items.deep_view()[item as int].item;
        let gv = self.items[item].item.get_value();
        let mut msg = String::from_str("Old value: ");
        msg.append(gv.as_str());
        let mut ents: Vec<String> = Vec::new();
        let it = &self.items[item];
        match &it.item {
            Item::Bool { .. } => {
                ents.push(String::from_str("true"));
                ents.push(String::from_str("false"));
            },
            Item::Int { value, min, max } => {
                msg = String::from_str("Old value: ");
                let vt = crate::numtext::i64_to_string(*value);
                msg.append(vt.as_str());
                msg.append(";\r");
                match min {
                    Some(m) => {
                        msg.append("Min: ");
                        let mt = crate::numtext::i64_to_string(*m);
                        msg.append(mt.as_str());
                        msg.append(";");
                    },
                    None => {},
                }
                msg.append(" ");
                match max {
                    Some(m) => {
                        msg.append("Max: ");
                        let mt = crate::numtext::i64_to_string(*m);
                        msg.append(mt.as_str());
                        msg.append(";");
                    },
                    None => {},
                }
                proof {
                    assert(msg@ =~= edit_message(model));
                }
            },
            Item::Float { value, min, max } => {
                msg = String::from_str("Old value: ");
                msg.append(value.as_str());
                msg.append(";\r");
                match min {
                    Some(m) => {
                        msg.append("Min: ");
                        msg.append(m.as_str());
                        msg.append(";");
                    },
                    None => {},
                }
                msg.append(" ");
                match max {
                    Some(m) => {
                        msg.append("Max: ");
                        msg.append(m.as_str());
                        msg.append(";");
                    },
                    None => {},
                }
                proof {
                    assert(msg@ =~= edit_message(model));
                }
            },
            Item::String { .. } => {},
            Item::Enum { options, .. } => {
                let n = options.len();
                let mut i: usize = 0;
                while i < n
                    invariant
                        0 <= i <= n,
                        n == options@.len(),
                        ents@.len() == i,
                        forall|j: int|
                            0 <= j < i ==> #[trigger] ents@[j]@ == options.deep_view()[j],
                    decreases n - i,
                {
                    ents.push(options[i].clone());
                    i = i + 1;
                }
            },
        }
        ents.push(String::from_str("Cancel"));
        self.entries = ents;
        self.message = msg;
        self.state = State::Editing(item);
        proof {
            let lines = edit_entries(model);
            assert(self.message@ =~= edit_message(model));
            assert forall|j: int| 0 <= j < lines.len() implies #[trigger] self.entries@[j]@
                == lines[j] by {
                match model {
                    ItemModel::Enum { options, .. } => {
                        if j < options.len() {
                            assert(lines[j] == options[j]);
                        }
                    },
                    _ => {},
                }
            }
        }
        gv
    }

    /// Finalizes the current edit from a selection index and/or submitted
    /// free text, as `commit_item` says: on success the item at the edited
    /// position takes its new value, its name and every other item are left
    /// untouched, and the session returns to browsing; on a validation
    /// error — unparsable numeric text, or an enumeration selection outside
    /// the option list — the whole session is left exactly as it was, still
    /// editing, so the user may resubmit.
    pub fn finish_edit(&mut self, selected: Option<usize>, custom_input: Option<&str>) -> (r:
        Result<(), ValidationError>)
        requires
            old(self).wf(),
            old(self).state is Editing,
        ensures
            match old(self).state {
                State::Editing(p) => {
                    let sel = match selected {
                        Some(s) => Some(s as int),
                        None => None,
                    };
                    let txt = match custom_input {
                        Some(t) => Some(t@),
                        None => None,
                    };
                    let before = old(self).items.deep_view();
                    match commit_item(before[p as int].item, sel, txt) {
                        Some(it2) => {
                            &&& r is Ok
                            &&& final(self).state is Main
                            &&& final(self).wf()
                            &&& final(self).items.deep_view() == before.update(
                                p as int,
                                ContainerModel { name: before[p as int].name, item: it2 },
                            )
                        },
                        None => {
                            &&& r is Err
                            &&& *final(self) == *old(self)
                        },
                    }
                },
                State::Main => false,
            },
    {
        let p: usize = match self.state {
            State::Editing(q) => q,
            State::Main => 0,
        };
        let ghost before = self.items.deep_view();
        let ghost model = before[p as int].item;
        let new_item: Option<Item> = match &self.items[p].item {
            Item::Bool { value } => {
                let nv: bool = match selected {
                    Some(0) => true,
                    Some(1) => false,
                    _ => *value,
                };
                Some(Item::Bool { value: nv })
            },
            Item::Int { value, min, max } => match custom_input {
                Some(t) => {
                    let normalized = crate::numtext::unescape(t);
                    match crate::numtext::parse_i64(normalized.as_str()) {
                        Some(n) => {
                            let mut nv: i64 = n;
                            match min {
                                Some(m) => if nv < *m {
                                    nv = *m;
                                },
                                None => {},
                            }
                            match max {
                                Some(m) => if nv > *m {
                                    nv = *m;
                                },
                                None => {},
                            }
                            Some(Item::Int { value: nv, min: *min, max: *max })
                        },
                        None => None,
                    }
                },
                None => Some(Item::Int { value: *value, min: *min, max: *max }),
            },
            Item::Float { value, min, max } => {
                let nv: String = match custom_input {
                    Some(t) => String::from_str(t),
                    None => value.clone(),
                };
                let nmin: Option<String> = match min {
                    Some(m) => Some(m.clone()),
                    None => None,
                };
                let nmax: Option<String> = match max {
                    Some(m) => Some(m.clone()),
                    None => None,
                };
                Some(Item::Float { value: nv, min: nmin, max: nmax })
            },
            Item::String { value } => {
                let nv: String = match custom_input {
                    Some(t) => String::from_str(t),
                    None => value.clone(),
                };
                Some(Item::String { value: nv })
            },
            Item::Enum { value, options } => match selected {
                Some(s) => if s < options.len() {
                    Some(Item::Enum { value: s, options: options.clone() })
                } else {
                    None
                },
                None => Some(Item::Enum { value: *value, options: options.clone() }),
            },
        };
        match new_item {
            Some(it2) => {
                let ghost sel = match selected {
                    Some(s) => Some(s as int),
                    None => None,
                };
                let ghost txt = match custom_input {
                    Some(t) => Some(t@),
                    None => None,
                };
                proof {
                    assert(commit_item(model, sel, txt) == Some(it2.deep_view()));
                }
                let name = self.items[p].name.clone();
                self.items.set(p, ItemContainer { name, item: it2 });
                proof {
                    assert(self.items.deep_view() =~= before.update(
                        p as int,
                        ContainerModel { name: before[p as int].name, item: it2.deep_view() },
                    ));
                    assert forall|j: int|
                        0 <= j < self.items.deep_view().len() implies item_inv(
                        #[trigger] self.items.deep_view()[j].item,
                    ) by {
                        if j != p {
                            assert(item_inv(before[j].item));
                        }
                    }
                }
                self.entries_from_items();
                Ok(())
            },
            None => Err(ValidationError),
        }
    }

    /// Applies one host event to the session and says what the host must do
    /// next. While browsing: selecting an item row begins editing it;
    /// selecting the trailing "Apply" line, or a cancellation signal, ends
    /// the session (the host serializes the item set either way); submitted
    /// text is discarded. While editing: selecting the trailing "Cancel"
    /// line or a cancellation signal abandons the edit; any other selection
    /// or submitted text finalizes it as `commit_item` says, a rejected edit
    /// leaving the session editing. A completion request copies the chosen
    /// line into the input. For a float item, the host resolves the
    /// submitted text numerically (parse and clamp, which only the host can
    /// read) before delivering the event; the commit stores the text it is
    /// handed.
    pub fn react(&mut self, event: &Event, input: &mut String) -> (r: Action)
        requires
            old(self).wf(),
            match *event {
                Event::Select { selected } => selected < old(self).entries@.len(),
                Event::Complete { selected } => match selected {
                    Some(i) => i < old(self).entries@.len(),
                    None => true,
                },
                _ => true,
            },
        ensures
            final(self).wf(),
            match *event {
                Event::Cancel => match old(self).state {
                    State::Editing(_) => {
                        &&& final(self).items == old(self).items
                        &&& final(self).state is Main
                        &&& r is Reload
                        &&& final(input)@ == Seq::<char>::empty()
                    },
                    State::Main => {
                        &&& *final(self) == *old(self)
                        &&& r is Exit
                        &&& *final(input) == *old(input)
                    },
                },
                Event::Select { selected } => match old(self).state {
                    State::Editing(p) => {
                        &&& r is Reload
                        &&& *final(input) == *old(input)
                        &&& if selected + 1 == old(self).entries@.len() {
                            // the trailing "Cancel" control line
                            &&& final(self).items == old(self).items
                            &&& final(self).state is Main
                        } else {
                            match commit_item(
                                old(self).items.deep_view()[p as int].item,
                                Some(selected as int),
                                None,
                            ) {
                                Some(it2) => {
                                    &&& final(self).state is Main
                                    &&& final(self).items.deep_view() == old(
                                        self,
                                    ).items.deep_view().update(
                                        p as int,
                                        ContainerModel {
                                            name: old(self).items.deep_view()[p as int].name,
                                            item: it2,
                                        },
                                    )
                                },
                                None => *final(self) == *old(self),
                            }
                        }
                    },
                    State::Main => {
                        if selected + 1 == old(self).entries@.len() {
                            // the trailing "Apply" line
                            &&& *final(self) == *old(self)
                            &&& r is Exit
                            &&& *final(input) == *old(input)
                        } else {
                            &&& final(self).items == old(self).items
                            &&& final(self).state == State::Editing(selected)
                            &&& r is Reload
                            &&& *final(input) == *old(input)
                        }
                    },
                },
                Event::CustomInput { text } => match old(self).state {
                    State::Editing(p) => {
                        &&& r is Reload
                        &&& final(input)@ == Seq::<char>::empty()
                        &&& match commit_item(
                            old(self).items.deep_view()[p as int].item,
                            None,
                            Some(text@),
                        ) {
                            Some(it2) => {
                                &&& final(self).state is Main
                                &&& final(self).items.deep_view() == old(
                                    self,
                                ).items.deep_view().update(
                                    p as int,
                                    ContainerModel {
                                        name: old(self).items.deep_view()[p as int].name,
                                        item: it2,
                                    },
                                )
                            },
                            None => {
                                &&& final(self).items == old(self).items
                                &&& final(self).state == old(self).state
                            },
                        }
                    },
                    State::Main => {
                        &&& *final(self) == *old(self)
                        &&& r is Reload
                        &&& final(input)@ == Seq::<char>::empty()
                    },
                },
                Event::Complete { selected } => {
                    &&& *final(self) == *old(self)
                    &&& r is Reload
                    &&& match selected {
                        Some(i) => final(input)@ == old(self).entries@[i as int]@,
                        None => *final(input) == *old(input),
                    }
                },
                Event::Other => {
                    &&& *final(self) == *old(self)
                    &&& r is Reload
                    &&& *final(input) == *old(input)
                },
            },
    {
        match event {
            Event::Cancel => match self.state {
                State::Editing(_) => {
                    *input = String::new();
                    self.entries_from_items();
                    Action::Reload
                },
                State::Main => Action::Exit,
            },
            Event::Select { selected } => match self.state {
                State::Editing(_) => {
                    proof {
                        assert(self.entries@.len() >= 1);
                    }
                    if *selected == self.entries.len() - 1 {
                        self.cancel_edit();
                    } else {
                        let _ = self.finish_edit(Some(*selected), None);
                    }
                    Action::Reload
                },
                State::Main => {
                    proof {
                        assert(self.entries@.len() >= 1);
                    }
                    if *selected == self.entries.len() - 1 {
                        Action::Exit
                    } else {
                        proof {
                            assert(old(self).entries@.len() == old(
                                self,
                            ).items.deep_view().len() + 1);
                        }
                        let _ = self.enter_edit(*selected);
                        Action::Reload
                    }
                },
            },
            Event::CustomInput { text } => match self.state {
                State::Editing(_) => {
                    let _ = self.finish_edit(None, Some(text.as_str()));
                    *input = String::new();
                    Action::Reload
                },
                State::Main => {
                    *input = String::new();
                    Action::Reload
                },
            },
            Event::Complete { selected } => {
                match selected {
                    Some(i) => {
                        *input = self.entries[*i].clone();
                    },
                    None => {},
                }
                Action::Reload
            },
            Event::Other => Action::Reload,
        }
    }

    /// Abandons the current edit: the session returns to browsing, and the
    /// item set is left bit-for-bit as it was.
    pub fn cancel_edit(&mut self)
        requires
            old(self).wf(),
            old(self).state is Editing,
        ensures
            final(self).items == old(self).items,
            final(self).state is Main,
            final(self).wf(),
    {
        self.entries_from_items();
    }

    /// The number of selectable lines.
    pub fn entry_count(&self) -> (r: usize)
        ensures
            r == self.entries@.len(),
    {
        self.entries.len()
    }

    /// The text of one selectable line.
    pub fn entry_content(&self, line: usize) -> (r: String)
        requires
            line < self.entries@.len(),
        ensures
            r@ == self.entries@[line as int]@,
    {
        self.entries[line].clone()
    }

    /// The status message.
    pub fn message(&self) -> (r: String)
        ensures
            r@ == self.message@,
    {
        self.message.clone()
    }
}

// ---------------------------------------------------------------------------
// Laws of the commit rules
// ---------------------------------------------------------------------------

/// Clamping lands inside the bounds whenever both are present and ordered.
pub proof fn lemma_clamp_in_bounds(v: int, mn: int, mx: int)
    requires
        mn <= mx,
    ensures
        mn <= clamp_int(v, Some(mn), Some(mx)) <= mx,
{
}

/// After any successful free-text commit of an integer item with both
/// bounds present, the stored value lies between them, and the bounds
/// themselves are unchanged.
pub proof fn lemma_commit_int_in_bounds(v: int, mn: int, mx: int, sel: Option<int>, text: Seq<char>)
    requires
        mn <= mx,
        commit_item(ItemModel::Int { value: v, min: Some(mn), max: Some(mx) }, sel, Some(text))
            is Some,
    ensures
        match commit_item(
            ItemModel::Int { value: v, min: Some(mn), max: Some(mx) },
            sel,
            Some(text),
        ) {
            Some(it2) => match it2 {
                ItemModel::Int { value: v2, min, max } => {
                    &&& mn <= v2 <= mx
                    &&& min == Some(mn)
                    &&& max == Some(mx)
                },
                _ => false,
            },
            None => false,
        },
{
}

/// A committed edit never breaks an item's invariant: in particular an
/// enumeration's index stays inside its option list.
pub proof fn lemma_commit_preserves_inv(it: ItemModel, sel: Option<int>, text: Option<Seq<char>>)
    requires
        item_inv(it),
    ensures
        match commit_item(it, sel, text) {
            Some(it2) => item_inv(it2),
            None => true,
        },
{
}

/// An edit that re-submits the item's current value is accepted and changes
/// nothing: re-selecting a boolean's or an enumeration's current choice, or
/// submitting a text item's stored text or a numeric item's own value text,
/// leaves the item exactly as it was. For an integer item this asks the
/// item's declared validity: a representable value that lies inside the
/// declared bounds.
pub proof fn lemma_commit_current_value_noop(it: ItemModel)
    requires
        item_inv(it),
        match it {
            ItemModel::Int { value, min, max } => {
                &&& i64::MIN <= value <= i64::MAX
                &&& (min matches Some(m) ==> m <= value)
                &&& (max matches Some(m) ==> value <= m)
            },
            _ => true,
        },
    ensures
        match it {
            ItemModel::Bool { value } => commit_item(
                it,
                Some(
                    if value {
                        0int
                    } else {
                        1int
                    },
                ),
                None,
            ) == Some(it),
            ItemModel::Int { value, .. } => commit_item(it, None, Some(int_dec(value))) == Some(
                it,
            ),
            ItemModel::Float { value, .. } => commit_item(it, None, Some(value)) == Some(it),
            ItemModel::String { value } => commit_item(it, None, Some(value)) == Some(it),
            ItemModel::Enum { value, .. } => commit_item(it, Some(value), None) == Some(it),
        },
{
    match it {
        ItemModel::Int { value, min, max } => {
            crate::numtext::lemma_int_dec_no_backslash(value);
            crate::numtext::lemma_parse_int_dec(value);
        },
        _ => {},
    }
}

} // verus!
