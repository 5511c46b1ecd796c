use harald::compile_script;

#[test]
fn test_hello_world() {
    let script = compile_script("result = \"Hello, world!\";\n");
    let output = script.unwrap().run().unwrap();
    assert_eq!(output, "Hello, world!");
}

#[test]
fn test_hello_world_pattern() {
    let script = compile_script("world = \"world\";\nresult = { \"Hello, \" world \"!\" };\n");
    let output = script.unwrap().run().unwrap();
    assert_eq!(output, "Hello, world!");
}

#[test]
fn hello_there_pattern() {
    let script = compile_script("world = \"there\";\nresult = { \"Hello \" world };\n");
    assert_eq!(script.unwrap().run().unwrap(), "Hello there");
}

#[test]
fn capitalise_call() {
    let script = compile_script("result = capitalise(\"robert\");\n");
    assert_eq!(script.unwrap().run().unwrap(), "Robert");
}
