use frostbyte_core::mitigation::ProcessActionController;
use frostbyte_core::safety::hardcoded_immune_processes;
use frostbyte_core::SafetyEngine;

#[test]
fn test_hardcoded_immunity() {
    let safety = SafetyEngine::new();
    assert!(safety.is_immune("csrss.exe"));
    assert!(safety.is_immune("CSRSS.EXE"));
    assert!(safety.is_immune("explorer.exe"));
    assert!(safety.is_immune("DWM.exe"));
    assert!(safety.is_immune("MsMpEng.exe"));
    assert!(!safety.is_immune("idmintegrator64.exe"));
    assert!(!safety.is_immune("node.exe"));
}

#[test]
fn test_custom_whitelist() {
    let mut safety = SafetyEngine::new();
    assert!(!safety.is_immune("my_custom_tool.exe"));
    safety.add_to_whitelist("my_custom_tool.exe");
    assert!(safety.is_immune("my_custom_tool.exe"));
}

#[test]
fn immunity_ignores_surrounding_whitespace_and_exe_suffix() {
    let safety = SafetyEngine::new();
    assert!(safety.is_immune("  Explorer.EXE \t"));
    assert!(safety.is_immune("csrss"));
    assert!(safety.is_immune("csrss.exe.exe"));
    assert!(safety.is_immune("System"));
    assert!(safety.is_immune("system.exe"));
    assert!(safety.is_immune("System Idle Process"));
    assert!(!safety.is_immune("csrss.ex"));
    assert!(!safety.is_immune(""));
}

#[test]
fn every_hardcoded_entry_is_immune_in_any_case() {
    let safety = SafetyEngine::with_custom_whitelist(&["tool.exe"]);
    let list = hardcoded_immune_processes();
    assert_eq!(list.len(), 40);
    for name in list {
        assert!(safety.is_immune(name));
        assert!(safety.is_immune(&name.to_uppercase()));
    }
}

#[test]
fn custom_whitelist_is_lowercased_and_matches_without_exe() {
    let safety = SafetyEngine::with_custom_whitelist(&["MyTool", "Other.EXE"]);
    assert!(safety.is_immune("mytool.exe"));
    assert!(safety.is_immune("MYTOOL"));
    assert!(safety.is_immune("other.exe"));
    assert!(!safety.is_immune("other"));
    assert!(!safety.is_immune("mytool2.exe"));
}

#[test]
fn removing_from_whitelist_revokes_immunity() {
    let mut safety = SafetyEngine::default();
    safety.add_to_whitelist("Worker.exe");
    assert!(safety.is_immune("worker.exe"));
    safety.remove_from_whitelist("WORKER.EXE");
    assert!(!safety.is_immune("worker.exe"));
    safety.remove_from_whitelist("explorer.exe");
    assert!(safety.is_immune("explorer.exe"));
}

#[test]
fn termination_of_protected_process_is_refused() {
    let safety = SafetyEngine::new();
    let refused = ProcessActionController::authorize_termination(612, "csrss.exe", &safety);
    assert_eq!(
        refused,
        Err("Refused to terminate 'csrss.exe' (PID 612): Process is protected by SafetyEngine.".to_string())
    );
    assert_eq!(ProcessActionController::authorize_termination(9999, "stuck_worker.exe", &safety), Ok(()));
}

#[test]
fn documented_security_and_driver_services_are_immune() {
    let safety = SafetyEngine::new();
    for name in ["ntoskrnl.exe", "avp.exe", "bdservicehost.exe", "SavService.exe", "CSFalconService.exe", "RadeonSoftware.exe",
        "csrss.exe", "lsass.exe", "dwm.exe", "MsMpEng.exe", "NisSrv.exe", "nvcontainer.exe", "igfxCUIService.exe", "RtkAudioService64.exe"] {
        assert!(safety.is_immune(name), "{} must be immune", name);
    }
}

#[test]
fn immune_lowercased_matches_the_normalized_name() {
    let safety = SafetyEngine::with_custom_whitelist(&["Tool"]);
    assert!(safety.immune_lowercased("  csfalconservice "));
    assert!(safety.immune_lowercased("tool.exe"));
    assert!(!safety.immune_lowercased("TOOL.exe"));
    assert!(!safety.immune_lowercased("game.exe"));
}

#[test]
fn whitespace_and_exe_suffix_do_not_matter_for_the_hardcoded_list() {
    let safety = SafetyEngine::new();
    for name in ["lsass", "lsass.exe", " lsass ", " lsass.exe ", "system", "system.exe"] {
        assert!(safety.immune_lowercased(name), "{:?}", name);
    }
    assert!(!safety.immune_lowercased(" game.exe "));
    let custom = SafetyEngine::with_custom_whitelist(&["tool.exe"]);
    // for the user whitelist the suffix does matter
    assert!(custom.immune_lowercased("tool.exe"));
    assert!(!custom.immune_lowercased("tool"));
}

#[test]
fn custom_whitelist_equals_adding_each_name() {
    let names = ["Alpha", "beta.EXE", "  Gamma  "];
    let built = SafetyEngine::with_custom_whitelist(&names);
    let mut added = SafetyEngine::new();
    for n in names {
        added.add_to_whitelist(n);
    }
    for probe in ["alpha", "ALPHA.exe", "beta.exe", "beta", "gamma", "  gamma  ", "delta.exe"] {
        assert_eq!(built.is_immune(probe), added.is_immune(probe), "{:?}", probe);
    }
    // adding never withdraws immunity
    let before: Vec<bool> = ["alpha", "csrss.exe", "x.exe"].iter().map(|p| added.is_immune(p)).collect();
    added.add_to_whitelist("x.exe");
    let after: Vec<bool> = ["alpha", "csrss.exe", "x.exe"].iter().map(|p| added.is_immune(p)).collect();
    assert_eq!(before, vec![true, true, false]);
    assert_eq!(after, vec![true, true, true]);
}
