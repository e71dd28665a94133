use recipemd::{Amount, ErrorKind, Factor, Ingredient, Recipe, Span};

const WATER: &str = "# Water\n\nA refreshing drink.\n\n*drink, non-alcoholic, H2O*\n\n**1 glass**\n\n---\n\n- *1* glass\n- *1* faucet\n\n---\n\nTurn on the faucet and fill the glass.\n";

#[test]
fn water_end_to_end() {
    let recipe = Recipe::parse(WATER).unwrap();
    assert_eq!(recipe.title, "Water");
    assert_eq!(recipe.description.as_deref(), Some("A refreshing drink."));
    assert_eq!(recipe.tags, vec!["drink", "non-alcoholic", "H2O"]);
    assert_eq!(
        recipe.yields,
        vec![Amount { factor: Some(Factor::Integer(1)), unit: Some("glass".to_string()) }]
    );
    assert_eq!(recipe.ingredients.len(), 1);
    let group = &recipe.ingredients[0];
    assert_eq!(group.title, None);
    assert_eq!(
        group.ingredients,
        vec![
            Ingredient {
                amount: Some(Amount { factor: Some(Factor::Integer(1)), unit: None }),
                name: "glass".to_string(),
                link: None,
            },
            Ingredient {
                amount: Some(Amount { factor: Some(Factor::Integer(1)), unit: None }),
                name: "faucet".to_string(),
                link: None,
            },
        ]
    );
    assert_eq!(recipe.instructions.as_deref(), Some("Turn on the faucet and fill the glass."));
}

#[test]
fn reparsing_is_deterministic() {
    let first = Recipe::parse(WATER).unwrap();
    let second = Recipe::parse(WATER).unwrap();
    assert_eq!(first, second);
}

#[test]
fn tags_keep_order() {
    let recipe = Recipe::parse("# T\n\n*drink, non-alcoholic, H2O*\n\n---\n\n- water\n").unwrap();
    assert_eq!(recipe.tags, vec!["drink", "non-alcoholic", "H2O"]);
}

#[test]
fn second_tags_section_is_an_error() {
    let err = Recipe::parse("# T\n\n*one, two*\n\n*three*\n\n---\n\n- water\n").unwrap_err();
    assert_eq!(err.kind, ErrorKind::MultipleTagsSections);
}

#[test]
fn second_yields_section_is_an_error() {
    let err = Recipe::parse("# T\n\n**1 glass**\n\n**2 cups**\n\n---\n\n- water\n").unwrap_err();
    assert_eq!(err.kind, ErrorKind::MultipleYieldsSections);
}

#[test]
fn description_resuming_after_tags_is_an_error() {
    let err = Recipe::parse("# T\n\nfirst part\n\n*tag*\n\nsecond part\n\n---\n\n- water\n")
        .unwrap_err();
    assert_eq!(err.kind, ErrorKind::MultipleDescriptionSections);
}

#[test]
fn missing_divider_at_end_of_input_has_no_span() {
    let err = Recipe::parse("# T\n\njust a paragraph\n").unwrap_err();
    assert_eq!(err.kind, ErrorKind::ExpectedHorizontalLine);
    assert_eq!(err.span, None);
}

#[test]
fn unexpected_node_in_ingredients_is_blamed() {
    let err = Recipe::parse("# T\n\n---\n\n> a quote\n\n---\n").unwrap_err();
    assert_eq!(err.kind, ErrorKind::ExpectedHorizontalLine);
    assert!(err.span.is_some());
}

#[test]
fn missing_title_is_an_error() {
    let err = Recipe::parse("just text\n").unwrap_err();
    assert_eq!(err.kind, ErrorKind::ExpectedTitle);
    assert_eq!(err.span, Some(Span::new(0, 10)));
}

#[test]
fn empty_input_has_no_title_span() {
    let err = Recipe::parse("").unwrap_err();
    assert_eq!(err.kind, ErrorKind::ExpectedTitle);
    assert_eq!(err.span, None);
}

#[test]
fn lone_emphasis_ingredient_is_empty() {
    let err = Recipe::parse("# T\n\n---\n\n- *1*\n\n---\n").unwrap_err();
    assert_eq!(err.kind, ErrorKind::EmptyIngredient);
}

#[test]
fn heading_directly_before_heading_is_an_empty_group() {
    let err = Recipe::parse("# T\n\n---\n\n## One\n\n## Two\n\n- water\n\n---\n").unwrap_err();
    assert_eq!(err.kind, ErrorKind::EmptyIngredientGroup);
}

#[test]
fn trailing_open_group_is_an_empty_group() {
    let err = Recipe::parse("# T\n\n---\n\n## One\n\n---\n").unwrap_err();
    assert_eq!(err.kind, ErrorKind::EmptyIngredientGroup);
}

#[test]
fn ingredient_section_without_groups_is_an_error() {
    let err = Recipe::parse("# T\n\n---\n\n---\n").unwrap_err();
    assert_eq!(err.kind, ErrorKind::EmptyIngredientGroup);
    assert_eq!(err.span, None);
}

#[test]
fn named_group_keeps_its_heading() {
    let recipe = Recipe::parse("# T\n\n---\n\n## Dough\n\n- *500* g flour\n\n---\n").unwrap();
    assert_eq!(recipe.ingredients.len(), 1);
    assert_eq!(recipe.ingredients[0].title.as_deref(), Some("Dough"));
    assert_eq!(recipe.ingredients[0].ingredients[0].name, "g flour");
}

#[test]
fn linked_ingredient_keeps_name_and_escaped_destination() {
    let recipe = Recipe::parse(
        "# T\n\n---\n\n- *1* [Flour](https://example.org/it's-flour)\n\n---\n",
    )
    .unwrap();
    let ingredient = &recipe.ingredients[0].ingredients[0];
    assert_eq!(ingredient.name, "Flour");
    assert_eq!(ingredient.link.as_deref(), Some("https://example.org/it&#x27;s-flour"));
    assert_eq!(
        ingredient.amount,
        Some(Amount { factor: Some(Factor::Integer(1)), unit: None })
    );
}

#[test]
fn error_carries_the_source() {
    let err = Recipe::parse("no title here").unwrap_err();
    assert_eq!(err.src(), "no title here");
}

#[test]
fn missing_optional_sections_stay_empty() {
    let recipe = Recipe::parse("# T\n\n---\n\n- water\n\n---\n").unwrap();
    assert_eq!(recipe.description, None);
    assert_eq!(recipe.tags, Vec::<String>::new());
    assert_eq!(recipe.yields, Vec::<Amount>::new());
    assert_eq!(recipe.instructions, None);
}

#[test]
fn multi_paragraph_description_spans_both() {
    let recipe = Recipe::parse("# T\n\nfirst part.\n\nsecond part.\n\n---\n\n- water\n").unwrap();
    assert_eq!(recipe.description.as_deref(), Some("first part.\n\nsecond part."));
}

#[test]
fn non_paragraph_nodes_count_as_description() {
    let recipe = Recipe::parse("# T\n\n- a note\n\n---\n\n- water\n").unwrap();
    assert_eq!(recipe.description.as_deref(), Some("- a note"));
}

#[test]
fn level_two_heading_is_not_a_title() {
    let err = Recipe::parse("## T\n").unwrap_err();
    assert_eq!(err.kind, ErrorKind::ExpectedTitle);
    assert!(err.span.is_some());
}

#[test]
fn two_lists_make_two_groups() {
    let recipe =
        Recipe::parse("# T\n\n---\n\n- water\n\n## Named\n\n- salt\n\n---\n").unwrap();
    assert_eq!(recipe.ingredients.len(), 2);
    assert_eq!(recipe.ingredients[0].title, None);
    assert_eq!(recipe.ingredients[1].title.as_deref(), Some("Named"));
    assert_eq!(recipe.ingredients[1].ingredients[0].name, "salt");
}
