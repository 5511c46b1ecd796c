use harald::compile_script;

#[test]
fn menu_sample_1000() {
    let script = compile_script(
        "dish = table[\n  [.name, .plural],\n  [\"pancake\", +\"s\"],\n  2.0 [\"soup\", _],\n  [\"dumpling\", +\"s\"],\n];\n\
         topping = bag[\"syrup\", 0.5 \"cream\", 3 \"\"];\n\
         adjective = bag[\"hot\", \"fresh\", \"spicy\"];\n\
         result = { capitalise(adjective) \" \" dish.name maybePrepend(\" with \", topping) \", or \" dish.plural };\n",
    )
    .unwrap();

    for _ in 0..1000 {
        script.run().unwrap();
    }
}
