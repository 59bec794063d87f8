use lib::cmd::{interpret_args, AppEntry, Application, ApplicationMap, Dispatch};

fn strings(v: &[&str]) -> Vec<String> {
    v.iter().map(|s| s.to_string()).collect()
}

#[test]
fn dispatch_from_arguments() {
    assert_eq!(interpret_args(&strings(&[])), Dispatch::Nothing);
    assert_eq!(interpret_args(&strings(&["prog"])), Dispatch::Nothing);
    assert_eq!(interpret_args(&strings(&["prog", "ASM"])), Dispatch::Run(AppEntry::Assembler));
    assert_eq!(interpret_args(&strings(&["prog", "asm", "-i", "x"])), Dispatch::Run(AppEntry::Assembler));
    assert_eq!(interpret_args(&strings(&["prog", "aSm"])), Dispatch::Run(AppEntry::Assembler));
    assert_eq!(interpret_args(&strings(&["prog", "asmx"])), Dispatch::Unrecognized);
    assert_eq!(interpret_args(&strings(&["prog", ""])), Dispatch::Unrecognized);
}

#[test]
fn application_map() {
    let mut m = ApplicationMap::new();
    m.add_standard_apps();
    assert_eq!(m.execute_app_from_mnem("ASM".to_string()), Some(AppEntry::Assembler));

    let m = ApplicationMap::new();
    assert_eq!(m.execute_app_from_mnem("ASM".to_string()), None);

    let mut m = ApplicationMap::new();
    m.add_standard_apps();
    assert_eq!(m.execute_app_from_mnem("asm".to_string()), None);

    let mut m = ApplicationMap::new();
    m.add_app("X".to_string(), Application::new("t".to_string(), "h".to_string(), AppEntry::Assembler));
    assert_eq!(m.execute_app_from_mnem("X".to_string()), Some(AppEntry::Assembler));
}

#[test]
fn application_fields() {
    let app = Application::new("Title".to_string(), "Help".to_string(), AppEntry::Assembler);
    assert_eq!(app.title, "Title");
    assert_eq!(app.help_text, "Help");
    assert_eq!(app.exec_app(), AppEntry::Assembler);
}
