//! Kinds of interface component.

use vstd::prelude::*;

verus! {

#[derive(Clone, Copy, Debug, PartialEq, Eq, Structural)]
pub enum UIType {
    Button,
    Text,
    Slider,
    Input,
    Checkbox,
    Dropdown,
    Radio,
    List,
    Table,
}

/// The component kind that a lower-case name stands for.
pub open spec fn ui_type_of(s: Seq<char>) -> Option<UIType> {
    if s == "button"@ {
        Some(UIType::Button)
    } else if s == "text"@ {
        Some(UIType::Text)
    } else if s == "slider"@ {
        Some(UIType::Slider)
    } else if s == "input"@ {
        Some(UIType::Input)
    } else if s == "checkbox"@ {
        Some(UIType::Checkbox)
    } else if s == "dropdown"@ {
        Some(UIType::Dropdown)
    } else if s == "radio"@ {
        Some(UIType::Radio)
    } else if s == "list"@ {
        Some(UIType::List)
    } else if s == "table"@ {
        Some(UIType::Table)
    } else {
        None
    }
}

impl UIType {
    /// The kind named by `s`; `None` for any other text.
    pub fn from_str(s: &str) -> (r: Option<UIType>)
        ensures
            r == ui_type_of(s@),
    {
        let s = s.to_owned();
        if s == "button".to_owned() {
            Some(UIType::Button)
        } else if s == "text".to_owned() {
            Some(UIType::Text)
        } else if s == "slider".to_owned() {
            Some(UIType::Slider)
        } else if s == "input".to_owned() {
            Some(UIType::Input)
        } else if s == "checkbox".to_owned() {
            Some(UIType::Checkbox)
        } else if s == "dropdown".to_owned() {
            Some(UIType::Dropdown)
        } else if s == "radio".to_owned() {
            Some(UIType::Radio)
        } else if s == "list".to_owned() {
            Some(UIType::List)
        } else if s == "table".to_owned() {
            Some(UIType::Table)
        } else {
            None
        }
    }
}

} // verus!
