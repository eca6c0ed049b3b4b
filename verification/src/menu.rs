//! Select menus: the choices that a user is offered.

use serenity::builder::{CreateSelectMenu, CreateSelectMenuKind, CreateSelectMenuOption};
use vstd::prelude::*;

verus! {

/// The platform's builder of one choice of a select menu. Nothing of its
/// inside is visible here.
#[verifier::external_type_specification]
#[verifier::external_body]
pub struct ExCreateSelectMenuOption(CreateSelectMenuOption);

/// The platform's builder of a select menu. Nothing of its inside is visible
/// here.
#[verifier::external_type_specification]
#[verifier::external_body]
pub struct ExCreateSelectMenu(CreateSelectMenu);

/// The builder that `CreateSelectMenuOption::new` makes of a label and a
/// value.
pub uninterp spec fn platform_option(label: Seq<char>, value: Seq<char>) -> CreateSelectMenuOption;

/// The builder that `CreateSelectMenu::new` makes of a custom id and the
/// options of a string select.
pub uninterp spec fn platform_menu(
    custom_id: Seq<char>,
    options: Seq<CreateSelectMenuOption>,
) -> CreateSelectMenu;

/// Calls `CreateSelectMenuOption::new`, which stores the label and the value
/// and leaves the builder's other fields empty: the result depends on the two
/// texts alone.
#[verifier::external_body]
fn new_platform_option(label: &str, value: &str) -> (option: CreateSelectMenuOption)
    ensures
        option == platform_option(label@, value@),
{
    CreateSelectMenuOption::new(label, value)
}

/// Calls `CreateSelectMenu::new` with the kind `CreateSelectMenuKind::String`,
/// which stores the custom id and the options and leaves the builder's other
/// fields empty: the result depends on the id and the options alone.
#[verifier::external_body]
fn new_platform_menu(custom_id: &str, options: Vec<CreateSelectMenuOption>) -> (menu:
    CreateSelectMenu)
    ensures
        menu == platform_menu(custom_id@, options@),
{
    CreateSelectMenu::new(custom_id, CreateSelectMenuKind::String { options })
}

/// The platform's builder of the string select with the custom id
/// `custom_id` and the choices `options`, in that order.
pub open spec fn menu_of(custom_id: Seq<char>, options: Seq<SelectOptionView>) -> CreateSelectMenu {
    platform_menu(
        custom_id,
        options.map_values(|o: SelectOptionView| platform_option(o.label, o.value)),
    )
}

/// One choice of a select menu: the text shown and the value sent back when
/// the user picks it.
#[derive(Debug)]
pub struct SelectOption {
    pub label: String,
    pub value: String,
}

/// The mathematical value of a [`SelectOption`].
pub struct SelectOptionView {
    pub label: Seq<char>,
    pub value: Seq<char>,
}

impl View for SelectOption {
    type V = SelectOptionView;

    open spec fn view(&self) -> SelectOptionView {
        SelectOptionView { label: self.label@, value: self.value@ }
    }
}

/// The values of a run of options, in order.
pub open spec fn options_view(options: Seq<SelectOption>) -> Seq<SelectOptionView> {
    options.map_values(|o: SelectOption| o@)
}

impl SelectOption {
    /// The choice shown as `label` that sends `value`.
    pub fn new(label: &str, value: &str) -> (option: SelectOption)
        ensures
            option@ == (SelectOptionView { label: label@, value: value@ }),
    {
        SelectOption { label: label.to_owned(), value: value.to_owned() }
    }
}

/// Builds the platform's string select with the custom id `custom_id` and the
/// choices `options`, in that order.
pub fn select_menu(custom_id: &str, options: &Vec<SelectOption>) -> (menu: CreateSelectMenu)
    ensures
        menu == menu_of(custom_id@, options_view(options@)),
{
    let mut built: Vec<CreateSelectMenuOption> = Vec::new();
    let mut i: usize = 0;
    while i < options.len()
        invariant
            i <= options.len(),
            built.len() == i,
            forall|j: int|
                0 <= j < i ==> #[trigger] built@[j] == platform_option(
                    options@[j]@.label,
                    options@[j]@.value,
                ),
        decreases options.len() - i,
    {
        built.push(new_platform_option(options[i].label.as_str(), options[i].value.as_str()));
        i = i + 1;
    }
    assert(built@ =~= options_view(options@).map_values(
        |o: SelectOptionView| platform_option(o.label, o.value),
    ));
    new_platform_menu(custom_id, built)
}

impl Clone for SelectOption {
    fn clone(&self) -> (option: SelectOption)
        ensures
            option@ == self@,
    {
        SelectOption { label: self.label.clone(), value: self.value.clone() }
    }
}

} // verus!
