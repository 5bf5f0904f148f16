use magictree::dict::Dict;
use magictree::discover::extractors::{inline_recipe, parse_justfile, parse_port_mapping};

#[test]
fn parses_variable_port_mappings() {
    let (target, variable) = parse_port_mapping("${WT_PORT_DB:-5432}:5432");
    assert_eq!(target, Some(5432));
    assert_eq!(variable.as_deref(), Some("WT_PORT_DB"));

    let (target, variable) = parse_port_mapping("9000:9000");
    assert_eq!(target, Some(9000));
    assert_eq!(variable, None);

    let (target, variable) = parse_port_mapping("127.0.0.1:3100:3000");
    assert_eq!(target, Some(3000));
    assert_eq!(variable, None);

    let (target, _) = parse_port_mapping("${PORT:-8080}:8080/tcp");
    assert_eq!(target, Some(8080));
}

#[test]
fn reads_justfile_recipes_and_modules() {
    let facts = parse_justfile(
        "set shell := [\"bash\", \"-eu\"]\nset dotenv-load\nexport FOO := \"bar\"\nmod stack 'deployment/local'\nalias b := build\n\n# comment\ndev port='3000':\n  echo {{port}}\n\nserve:\n  echo hi\n",
    );
    let (recipes, modules) = (&facts.recipes, &facts.modules);
    assert_eq!(recipes, &vec!["dev".to_string(), "serve".to_string()]);
    assert!(!recipes.contains(&"set".to_string()));
    assert!(!recipes.contains(&"export".to_string()));
    assert!(!recipes.contains(&"alias".to_string()));
    assert_eq!(modules, &vec!["stack".to_string()]);
}

#[test]
fn inlines_a_recipe_command_and_substitutes_env_variables() {
    let mut variables = Dict::new();
    variables.insert("api_port".to_string(), "WT_PORT_API".to_string());

    // A guard line exists only to reject a mode we are not reproducing.
    let body = "{{ if mode == \"ui\" { error(\"nope\") } else { \"\" } }}\nuv run uvicorn app:main --port {{api_port}} --reload";
    assert_eq!(
        inline_recipe(body, &variables).as_deref(),
        Some("uv run uvicorn app:main --port $WT_PORT_API --reload")
    );

    // Spaced interpolation and a single command with no template work.
    assert_eq!(
        inline_recipe("pnpm dev --port {{ api_port }}", &variables).as_deref(),
        Some("pnpm dev --port $WT_PORT_API")
    );

    // Anything we cannot resolve mechanically must not be guessed at.
    assert_eq!(inline_recipe("echo {{unknown_var}}", &variables), None);
    assert_eq!(inline_recipe("echo one\necho two", &variables), None);
    assert_eq!(inline_recipe("", &variables), None);
    let mut odd = Dict::new();
    odd.insert("a".to_string(), "{x{".to_string());
    odd.insert("b".to_string(), "{{a}}".to_string());
    assert_eq!(inline_recipe("{{a}}", &odd).as_deref(), Some("${x{"));
    assert_eq!(inline_recipe("echo {{b}}", &odd).as_deref(), Some("echo $${x{"));
}

#[test]
fn records_recipe_bodies_and_variable_sources() {
    let facts = parse_justfile(
        "svc_port := env(\"WT_PORT_SVC\", \"8000\")\n\ndev $MY_PORT=svc_port:\n  uv run uvicorn app:main --port {{svc_port}}\n\nlint:\n  ruff check .\n",
    );
    assert_eq!(facts.recipes, vec!["dev".to_string(), "lint".to_string()]);
    assert_eq!(
        facts.variables.get("svc_port").map(String::as_str),
        Some("WT_PORT_SVC")
    );
    assert!(
        facts.recipe_bodies.get("dev").unwrap().contains("uvicorn"),
        "{:?}",
        facts.recipe_bodies
    );
    let inlined = inline_recipe(facts.recipe_bodies.get("dev").unwrap(), &facts.variables).unwrap();
    assert!(inlined.contains("--port $WT_PORT_SVC"), "{inlined}");
}

#[test]
fn only_env_reads_count_as_inputs() {
    let facts = parse_justfile(
        "set shell := [\"bash\"]\nsvc_port := env(\"WT_PORT_SVC\", \"8000\")\nmode := env_var(\"MODE\", \"dev\")\nexport PLAIN := \"constant\"\n\nserve $MY_SERVICE_PORT=svc_port:\n  echo $MY_SERVICE_PORT\n",
    );
    let (env_variables, exported) = (&facts.env_variables, &facts.exported_parameters);

    // Read from the environment: usable to pass a port in.
    assert!(
        env_variables.contains(&"WT_PORT_SVC".to_string()),
        "{env_variables:?}"
    );
    assert!(
        env_variables.contains(&"MODE".to_string()),
        "{env_variables:?}"
    );
    // Outputs: an ambient value is overwritten, so they cannot carry one.
    assert!(
        !env_variables.contains(&"MY_SERVICE_PORT".to_string()),
        "a recipe parameter is not an input: {env_variables:?}"
    );
    assert!(
        !env_variables.contains(&"PLAIN".to_string()),
        "an exported constant is not an input: {env_variables:?}"
    );
    assert_eq!(exported, &vec!["MY_SERVICE_PORT".to_string()]);
}
