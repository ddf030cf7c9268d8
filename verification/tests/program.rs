use xtask::schema::program::is_program_name;

#[test]
fn program_names_are_lowercase_snake_case_of_at_least_four_bytes() {
    let cases: &[(&str, bool)] = &[
        ("player_crafting", true),
        ("else", true),
        ("hierarchy", true),
        ("weaponskill", true),
        ("float3", true),
        ("ui2", false),
        ("ignore", true),
        ("PlayerSpawnPoint", false),
        ("Displacement Scale", false),
        ("10.0f", false),
        ("keen::bool", false),
        ("", false),
    ];
    for (name, want) in cases {
        assert_eq!(is_program_name(name), *want, "name {name:?}");
    }
}
