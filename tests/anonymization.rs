use dicom_app::anonymize::{anonymization_edits, plan_anonymization, TagLookup};

fn lookups() -> Vec<TagLookup> {
    vec![
        TagLookup { group: 0x0010, element: 0x0010, vr: Some("PN".to_string()) },
        TagLookup { group: 0x0010, element: 0x0020, vr: None },
        TagLookup { group: 0x0008, element: 0x0080, vr: Some("LO".to_string()) },
    ]
}

#[test]
fn present_tags_keep_their_vr_and_identity_is_rewritten() {
    let edits = anonymization_edits(&lookups(), &"ANON".to_string(), 5, &Some("1.2.3".to_string()));
    let got: Vec<(u16, u16, String, String)> =
        edits.iter().map(|e| (e.group, e.element, e.vr.clone(), e.value.clone())).collect();
    assert_eq!(
        got,
        vec![
            (0x0010, 0x0010, "PN".to_string(), "ANON".to_string()),
            (0x0008, 0x0080, "LO".to_string(), "ANON".to_string()),
            (0x0008, 0x0016, "UI".to_string(), "1.2.840.10008.5.1.4.1.1.2".to_string()),
            (0x0008, 0x0018, "UI".to_string(), "2.25.5".to_string()),
        ]
    );
}

#[test]
fn regenerated_uid_never_repeats_the_old_one() {
    let edits = anonymization_edits(&Vec::new(), &"X".to_string(), 5, &Some("2.25.5".to_string()));
    assert_eq!(edits.last().unwrap().value, "2.25.6");
    let max = u128::MAX;
    let old = format!("2.25.{}", max);
    let edits = anonymization_edits(&Vec::new(), &"X".to_string(), max, &Some(old));
    assert_eq!(edits.last().unwrap().value, "2.25.0");
    let edits = anonymization_edits(&Vec::new(), &"X".to_string(), max, &None);
    assert_eq!(edits.last().unwrap().value, "2.25.340282366920938463463374607431768211455");
}

#[test]
fn different_numbers_give_different_uids() {
    let a = anonymization_edits(&Vec::new(), &"X".to_string(), 12, &None);
    let b = anonymization_edits(&Vec::new(), &"X".to_string(), 120, &None);
    assert_ne!(a.last().unwrap().value, b.last().unwrap().value);
}

#[test]
fn fresh_plans_use_random_uids() {
    let old = Some("1.2.3.4".to_string());
    let a = plan_anonymization(&lookups(), &"ANON".to_string(), &old);
    let b = plan_anonymization(&lookups(), &"ANON".to_string(), &old);
    let ua = a.last().unwrap().value.clone();
    let ub = b.last().unwrap().value.clone();
    assert!(ua.starts_with("2.25."));
    assert!(ua[5..].chars().all(|c| c.is_ascii_digit()));
    assert_ne!(ua, "1.2.3.4");
    assert_ne!(ua, ub);
    assert_eq!(a.len(), 4);
}
