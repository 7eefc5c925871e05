use vstd::prelude::*;

verus! {

/// One typed, named configurable value. `Float` carries its value and bounds
/// as decimal text: the numeric reading of that text is the host's concern,
/// and the editor treats it as opaque.
#[allow(inconsistent_fields)]
pub enum Item {
    Bool { value: bool },
    Int { value: i64, min: Option<i64>, max: Option<i64> },
    Float { value: String, min: Option<String>, max: Option<String> },
    String { value: String },
    Enum { value: usize, options: Vec<String> },
}

/// A display name paired with one item. Names need not be unique; access is
/// strictly by position.
pub struct ItemContainer {
    pub name: String,
    pub item: Item,
}

/// Whether the session is browsing the whole item set or editing one item,
/// identified by its position.
pub enum State {
    Main,
    Editing(usize),
}

/// Mathematical model of an `Item`: integers as `int`, text as `Seq<char>`.
#[allow(inconsistent_fields)]
pub enum ItemModel {
    Bool { value: bool },
    Int { value: int, min: Option<int>, max: Option<int> },
    Float { value: Seq<char>, min: Option<Seq<char>>, max: Option<Seq<char>> },
    String { value: Seq<char> },
    Enum { value: int, options: Seq<Seq<char>> },
}

/// Model of a named item.
pub struct ContainerModel {
    pub name: Seq<char>,
    pub item: ItemModel,
}

impl DeepView for Item {
    type V = ItemModel;

    open spec fn deep_view(&self) -> ItemModel {
        match self {
            Item::Bool { value } => ItemModel::Bool { value: *value },
            Item::Int { value, min, max } => ItemModel::Int {
                value: *value as int,
                min: match min {
                    Some(m) => Some(*m as int),
                    None => None,
                },
                max: match max {
                    Some(m) => Some(*m as int),
                    None => None,
                },
            },
            Item::Float { value, min, max } => ItemModel::Float {
                value: value@,
                min: match min {
                    Some(m) => Some(m@),
                    None => None,
                },
                max: match max {
                    Some(m) => Some(m@),
                    None => None,
                },
            },
            Item::String { value } => ItemModel::String { value: value@ },
            Item::Enum { value, options } => ItemModel::Enum {
                value: *value as int,
                options: options.deep_view(),
            },
        }
    }
}

impl DeepView for ItemContainer {
    type V = ContainerModel;

    open spec fn deep_view(&self) -> ContainerModel {
        ContainerModel { name: self.name@, item: self.item.deep_view() }
    }
}

/// The per-item invariant: an enumeration's stored index always lies inside
/// its option list (which therefore cannot be empty).
pub open spec fn item_inv(it: ItemModel) -> bool {
    match it {
        ItemModel::Enum { value, options } => 0 <= value < options.len(),
        _ => true,
    }
}

/// The invariant of a whole item set.
pub open spec fn items_inv(items: Seq<ContainerModel>) -> bool {
    forall|i: int| 0 <= i < items.len() ==> #[trigger] item_inv(items[i].item)
}

/// An item's current value rendered as text: booleans as "true"/"false",
/// integers as canonical decimal text, floats and strings as their stored
/// text, enumerations as the option text at the stored index.
pub open spec fn value_text(it: ItemModel) -> Seq<char> {
    match it {
        ItemModel::Bool { value } => if value {
            "true"@
        } else {
            "false"@
        },
        ItemModel::Int { value, .. } => crate::numtext::int_dec(value),
        ItemModel::Float { value, .. } => value,
        ItemModel::String { value } => value,
        ItemModel::Enum { value, options } => options[value],
    }
}

impl Item {
    /// The item's current value as text. Never fails: the enumeration index
    /// invariant guarantees the option lookup is in bounds.
    pub fn get_value(&self) -> (r: String)
        requires
            item_inv(self.deep_view()),
        ensures
            r@ == value_text(self.deep_view()),
    {
        match self {
            Item::Bool { value } => if *value {
                String::from_str("true")
            } else {
                String::from_str("false")
            },
            Item::Int { value, .. } => crate::numtext::i64_to_string(*value),
            Item::Float { value, .. } => value.clone(),
            Item::String { value } => value.clone(),
            Item::Enum { value, options } => {
                proof {
                    assert(options.deep_view()[*value as int] == options[*value as int]@);
                }
                options[*value].clone()
            },
        }
    }
}

} // verus!
