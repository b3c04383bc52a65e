use framely::capture::{
    find_window, map_capture_failure, select_display, CaptureError, CaptureFailure, DisplayInfo,
};

fn displays() -> Vec<DisplayInfo> {
    vec![
        DisplayInfo { id: 7, width: 3440, height: 1440 },
        DisplayInfo { id: 12, width: 1920, height: 1080 },
        DisplayInfo { id: 7, width: 800, height: 600 },
    ]
}

#[test]
fn select_display_by_id_or_main() {
    let ds = displays();
    assert_eq!(select_display(&ds, None).unwrap(), 0);
    assert_eq!(select_display(&ds, Some(12)).unwrap(), 1);
    assert_eq!(select_display(&ds, Some(7)).unwrap(), 0);
    match select_display(&ds, Some(404)) {
        Err(CaptureError::NotFound(m)) => assert_eq!(m, "écran 404"),
        _ => panic!("an unknown display is not found"),
    }
    match select_display(&Vec::new(), None) {
        Err(CaptureError::NotFound(m)) => assert_eq!(m, "aucun écran disponible"),
        _ => panic!("no display at all"),
    }
    match select_display(&Vec::new(), Some(0)) {
        Err(e) => assert_eq!(e.message(), "introuvable : écran 0"),
        _ => panic!("no display at all"),
    }
}

#[test]
fn find_window_by_id() {
    let ids = vec![3, 99, 4000000000, 99];
    assert_eq!(find_window(&ids, 99).unwrap(), 1);
    assert_eq!(find_window(&ids, 4000000000).unwrap(), 2);
    match find_window(&ids, 5) {
        Err(CaptureError::NotFound(m)) => assert_eq!(m, "fenêtre 5"),
        _ => panic!("an unknown window is not found"),
    }
}

#[test]
fn capture_failures_are_mapped() {
    let e = map_capture_failure(CaptureFailure::NoShareableContent("x".to_string()));
    assert_eq!(e.message(), "permission refusée : x");
    let e = map_capture_failure(CaptureFailure::PermissionDenied("y".to_string()));
    assert!(matches!(e, CaptureError::PermissionDenied(ref m) if m == "y"));
    let e = map_capture_failure(CaptureFailure::WindowNotFound("w".to_string()));
    assert_eq!(e.message(), "introuvable : w");
    let e = map_capture_failure(CaptureFailure::DisplayNotFound("d".to_string()));
    assert!(matches!(e, CaptureError::NotFound(ref m) if m == "d"));
    let e = map_capture_failure(CaptureFailure::Other("boom".to_string()));
    assert_eq!(e.message(), "échec de capture : boom");
}

#[test]
fn missing_ids_are_written_in_decimal() {
    let ds = displays();
    for (id, text) in [(10u32, "10"), (1000, "1000"), (90_807, "90807"), (u32::MAX, "4294967295")] {
        match select_display(&ds, Some(id)) {
            Err(CaptureError::NotFound(m)) => assert_eq!(m, format!("écran {}", text)),
            _ => panic!("an unknown display is not found"),
        }
        match find_window(&vec![1, 2], id) {
            Err(CaptureError::NotFound(m)) => assert_eq!(m, format!("fenêtre {}", text)),
            _ => panic!("an unknown window is not found"),
        }
    }
}
