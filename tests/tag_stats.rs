use dicom_app::stats::{
    describe_tag, tag_details, tag_name, tag_value, ElementRead, FolderStats, PixelDataStatus, ValueCounts,
};

#[test]
fn values_counted_for_tags() {
    assert_eq!(tag_value(0x7fe0, 0x0010, &ElementRead::Absent, PixelDataStatus::Binary), "Binary");
    assert_eq!(tag_value(0x7fe0, 0x0010, &ElementRead::Absent, PixelDataStatus::Error), "Error");
    assert_eq!(tag_value(0x0008, 0x0060, &ElementRead::Text("CT".into()), PixelDataStatus::Missing), "CT");
    assert_eq!(tag_value(0x0008, 0x0060, &ElementRead::NonText, PixelDataStatus::Missing), "Binary");
    assert_eq!(tag_value(0x0008, 0x0060, &ElementRead::Absent, PixelDataStatus::Binary), "Missing");
}

#[test]
fn histogram_add_and_merge() {
    let mut a = ValueCounts::new();
    a.add("CT".to_string());
    a.add("CT".to_string());
    a.add("MR".to_string());
    let mut b = ValueCounts::new();
    b.add("MR".to_string());
    b.add_count("US".to_string(), 4);
    a.merge(&b);
    assert_eq!(a.count(&"CT".to_string()), 2);
    assert_eq!(a.count(&"MR".to_string()), 2);
    assert_eq!(a.count(&"US".to_string()), 4);
    assert_eq!(a.count(&"XA".to_string()), 0);
    assert_eq!(a.total(), 8);
    assert_eq!(a.entries().len(), 3);
}

#[test]
fn folder_stats_per_tag() {
    let tags = vec![(0x0008, 0x0060), (0x0010, 0x0040)];
    let mut w1 = FolderStats::new(&tags);
    w1.add_file(&vec!["CT".to_string(), "F".to_string()]);
    let mut w2 = FolderStats::new(&tags);
    w2.add_file(&vec!["CT".to_string(), "M".to_string()]);
    w2.add_file(&vec!["MR".to_string(), "M".to_string()]);
    w1.merge(&w2);
    let stats = w1.finish();
    assert_eq!(stats.len(), 2);
    assert_eq!((stats[0].group, stats[0].element), (0x0008, 0x0060));
    assert_eq!(stats[0].name, "Modality");
    let mut counts = stats[0].value_counts.clone();
    counts.sort();
    assert_eq!(counts, vec![("CT".to_string(), 2), ("MR".to_string(), 1)]);
    assert_eq!(stats[1].name, "PatientSex");
    assert!(FolderStats::new(&tags).finish().is_empty());
}

#[test]
fn tag_names_from_dictionary() {
    assert_eq!(tag_name(0x0010, 0x0010), "PatientName");
    assert_eq!(tag_name(0x0009, 0x0001), "Unknown");
}

#[test]
fn tag_listing_rows() {
    let t = describe_tag(0x7fe0, 0x0010, "OW".into(), Some("abc".into()));
    assert_eq!(t.value, "<binary data>");
    assert_eq!(t.name, "PixelData");
    let t = describe_tag(0x0008, 0x0060, "CS".into(), Some("CT".into()));
    assert_eq!(t.value, "CT");
    assert_eq!(t.vr, "CS");
    let t = describe_tag(0x0008, 0x0060, "CS".into(), None);
    assert_eq!(t.value, "<binary data>");
}

#[test]
fn details_sorted_by_frequency_with_hundred_examples() {
    let mut pairs = Vec::new();
    for i in 0..150 {
        pairs.push(("X".to_string(), format!("/f/x{}", i)));
    }
    pairs.push(("Y".to_string(), "/f/y".to_string()));
    for i in 0..3 {
        pairs.push(("Z".to_string(), format!("/f/z{}", i)));
    }
    let d = tag_details(0x0008, 0x0060, &pairs);
    assert_eq!(d.name, "Modality");
    let got: Vec<(String, usize, usize)> = d.values.iter().map(|v| (v.value.clone(), v.count, v.files.len())).collect();
    assert_eq!(got, vec![("X".to_string(), 150, 100), ("Z".to_string(), 3, 3), ("Y".to_string(), 1, 1)]);
    assert_eq!(d.values[0].files[0], "/f/x0");
    assert_eq!(d.values[0].files[99], "/f/x99");
}
