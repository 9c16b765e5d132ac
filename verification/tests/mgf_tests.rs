use mgf_rs_io::count_spectra;
use mgf_rs_io::extract_spectra;
use mgf_rs_io::MgfError;
use mgf_rs_io::Strategy;

fn generic_three() -> Vec<u8> {
    let text = "BEGIN IONS\n\
        TITLE=first\n\
        PEPMASS=445.12 23.4\n\
        100.25 200.5\n\
        101.5 1.0\n\
        END IONS\n\
        \n\
        BEGIN IONS\n\
        TITLE=second has no peaks and no precursor\n\
        END IONS\n\
        BEGIN IONS\n\
        PEPMASS=512.75\n\
        300.125 7.25\n\
        END IONS\n";
    text.as_bytes().to_vec()
}

fn feature_two_levels() -> Vec<u8> {
    let text = "BEGIN IONS\n\
        FEATURE_ID=7\n\
        PEPMASS=445.12\n\
        MSLEVEL=1\n\
        445.12 100.0\n\
        END IONS\n\
        BEGIN IONS\n\
        FEATURE_ID=7\n\
        PEPMASS=445.12\n\
        MSLEVEL=2\n\
        100.25 200.5\n\
        END IONS\n\
        BEGIN IONS\n\
        FEATURE_ID=7\n\
        PEPMASS=445.12\n\
        MSLEVEL=2\n\
        999.875 1.5\n\
        END IONS\n";
    text.as_bytes().to_vec()
}

#[test]
fn count_matches_extract_generic() {
    let content = generic_three();
    let n = count_spectra(&content, Strategy::Generic).unwrap();
    let records = extract_spectra(&content, Strategy::Generic).unwrap();
    assert_eq!(n, records.len());
    assert_eq!(n, 3);
}

#[test]
fn count_matches_extract_features() {
    let content = feature_two_levels();
    let n = count_spectra(&content, Strategy::FeatureCentric).unwrap();
    let records = extract_spectra(&content, Strategy::FeatureCentric).unwrap();
    assert_eq!(n, records.len());
    assert_eq!(n, 1);
}

#[test]
fn peaks_parallel_lengths() {
    let content = generic_three();
    let records = extract_spectra(&content, Strategy::Generic).unwrap();
    for r in &records {
        assert_eq!(r.mz_values().len(), r.peaks.len());
        assert_eq!(r.intensity_values().len(), r.peaks.len());
    }
    assert_eq!(records[0].peaks.len(), 2);
}

#[test]
fn widening_tokens_to_float64_is_exact() {
    // A narrower float widened to float64 keeps its exact value for every
    // representable source value; the tokens the library hands out make the
    // round trip visible.
    let content = generic_three();
    let records = extract_spectra(&content, Strategy::Generic).unwrap();
    let tok = String::from_utf8(records[0].peaks[0].intensity.clone()).unwrap();
    let narrow: f32 = tok.parse().unwrap();
    let wide: f64 = tok.parse().unwrap();
    assert_eq!(narrow as f64, wide);
    let narrow2: f32 = 1.5;
    assert_eq!(narrow2 as f64, 1.5f64);
}

#[test]
fn generic_second_record_empty_and_absent() {
    let content = generic_three();
    assert_eq!(count_spectra(&content, Strategy::Generic).unwrap(), 3);
    let records = extract_spectra(&content, Strategy::Generic).unwrap();
    assert_eq!(records[1].peaks.len(), 0);
    assert!(records[1].precursor_mz.is_none());
}

#[test]
fn generic_precursor_taken_from_first_value() {
    let content = generic_three();
    let records = extract_spectra(&content, Strategy::Generic).unwrap();
    assert_eq!(records[0].precursor_mz.as_deref(), Some(b"445.12".as_slice()));
    assert_eq!(records[2].precursor_mz.as_deref(), Some(b"512.75".as_slice()));
}

#[test]
fn generic_ids_sequential() {
    let content = generic_three();
    let records = extract_spectra(&content, Strategy::Generic).unwrap();
    assert_eq!(records[0].id, 0);
    assert_eq!(records[1].id, 1);
    assert_eq!(records[2].id, 2);
}

#[test]
fn generic_peak_tokens_verbatim() {
    let content = generic_three();
    let records = extract_spectra(&content, Strategy::Generic).unwrap();
    assert_eq!(records[0].peaks[0].mz, b"100.25".to_vec());
    assert_eq!(records[0].peaks[0].intensity, b"200.5".to_vec());
    assert_eq!(records[0].peaks[1].mz, b"101.5".to_vec());
    assert_eq!(records[2].peaks[0].mz, b"300.125".to_vec());
}

#[test]
fn feature_precursor_always_present() {
    let content = feature_two_levels();
    let records = extract_spectra(&content, Strategy::FeatureCentric).unwrap();
    for r in &records {
        assert!(r.precursor_mz.is_some());
    }
    assert_eq!(records[0].precursor_mz.as_deref(), Some(b"445.12".as_slice()));
}

#[test]
fn feature_uses_first_fragmentation_level_only() {
    let content = feature_two_levels();
    let records = extract_spectra(&content, Strategy::FeatureCentric).unwrap();
    assert_eq!(records.len(), 1);
    assert_eq!(records[0].id, 7);
    assert_eq!(records[0].peaks.len(), 1);
    assert_eq!(records[0].peaks[0].mz, b"100.25".to_vec());
    assert_eq!(records[0].peaks[0].intensity, b"200.5".to_vec());
}

#[test]
fn reread_yields_identical_records() {
    let content = generic_three();
    let first = extract_spectra(&content, Strategy::Generic).unwrap();
    let second = extract_spectra(&content, Strategy::Generic).unwrap();
    assert_eq!(first, second);
    let fc = feature_two_levels();
    let a = extract_spectra(&fc, Strategy::FeatureCentric).unwrap();
    let b = extract_spectra(&fc, Strategy::FeatureCentric).unwrap();
    assert_eq!(a, b);
}

#[test]
fn feature_without_level_fails_whole_call() {
    let text = "BEGIN IONS\n\
        FEATURE_ID=1\n\
        PEPMASS=100.5\n\
        MSLEVEL=1\n\
        END IONS\n\
        BEGIN IONS\n\
        FEATURE_ID=2\n\
        PEPMASS=200.5\n\
        MSLEVEL=2\n\
        150.0 3.5\n\
        END IONS\n";
    let content = text.as_bytes().to_vec();
    assert_eq!(
        extract_spectra(&content, Strategy::FeatureCentric).unwrap_err(),
        MgfError::ValueError
    );
    assert_eq!(
        count_spectra(&content, Strategy::FeatureCentric).unwrap_err(),
        MgfError::ValueError
    );
}

#[test]
fn unterminated_block_is_io_error() {
    let content = b"BEGIN IONS\nPEPMASS=1.5\n100.0 1.0\n".to_vec();
    assert_eq!(extract_spectra(&content, Strategy::Generic).unwrap_err(), MgfError::IOError);
    assert_eq!(count_spectra(&content, Strategy::Generic).unwrap_err(), MgfError::IOError);
}

#[test]
fn stray_text_outside_block_is_io_error() {
    let content = b"what is this\nBEGIN IONS\nEND IONS\n".to_vec();
    assert_eq!(extract_spectra(&content, Strategy::Generic).unwrap_err(), MgfError::IOError);
}

#[test]
fn non_numeric_peak_is_io_error() {
    let content = b"BEGIN IONS\nPEPMASS=1.5\nabc 1.0\nEND IONS\n".to_vec();
    assert_eq!(extract_spectra(&content, Strategy::Generic).unwrap_err(), MgfError::IOError);
    assert_eq!(count_spectra(&content, Strategy::Generic).unwrap_err(), MgfError::IOError);
}

#[test]
fn lone_peak_column_is_io_error() {
    let content = b"BEGIN IONS\n100.0\nEND IONS\n".to_vec();
    assert_eq!(extract_spectra(&content, Strategy::Generic).unwrap_err(), MgfError::IOError);
}

#[test]
fn non_numeric_precursor_is_io_error() {
    let content = b"BEGIN IONS\nPEPMASS=heavy\nEND IONS\n".to_vec();
    assert_eq!(extract_spectra(&content, Strategy::Generic).unwrap_err(), MgfError::IOError);
}

#[test]
fn empty_precursor_value_is_absent() {
    let content = b"BEGIN IONS\nPEPMASS=\n100.0 1.0\nEND IONS\n".to_vec();
    let records = extract_spectra(&content, Strategy::Generic).unwrap();
    assert!(records[0].precursor_mz.is_none());
}

#[test]
fn missing_feature_id_is_io_error() {
    let content = b"BEGIN IONS\nPEPMASS=1.5\nMSLEVEL=2\n100.0 1.0\nEND IONS\n".to_vec();
    assert_eq!(
        extract_spectra(&content, Strategy::FeatureCentric).unwrap_err(),
        MgfError::IOError
    );
}

#[test]
fn missing_parent_mass_is_io_error_for_features() {
    let content = b"BEGIN IONS\nFEATURE_ID=1\nMSLEVEL=2\n100.0 1.0\nEND IONS\n".to_vec();
    assert_eq!(
        extract_spectra(&content, Strategy::FeatureCentric).unwrap_err(),
        MgfError::IOError
    );
}

#[test]
fn oversized_feature_id_is_io_error() {
    let content =
        b"BEGIN IONS\nFEATURE_ID=99999999999999999999\nPEPMASS=1.5\nMSLEVEL=2\n100.0 1.0\nEND IONS\n"
            .to_vec();
    assert_eq!(
        extract_spectra(&content, Strategy::FeatureCentric).unwrap_err(),
        MgfError::IOError
    );
}

#[test]
fn empty_content_has_no_spectra() {
    let content: Vec<u8> = Vec::new();
    assert_eq!(count_spectra(&content, Strategy::Generic).unwrap(), 0);
    assert!(extract_spectra(&content, Strategy::Generic).unwrap().is_empty());
    assert_eq!(count_spectra(&content, Strategy::FeatureCentric).unwrap(), 0);
}

#[test]
fn crlf_and_padding_are_tolerated() {
    let content = b"BEGIN IONS\r\nPEPMASS=445.12\r\n100.25\t200.5\r\nEND IONS\r\n".to_vec();
    let records = extract_spectra(&content, Strategy::Generic).unwrap();
    assert_eq!(records.len(), 1);
    assert_eq!(records[0].peaks[0].mz, b"100.25".to_vec());
    assert_eq!(records[0].precursor_mz.as_deref(), Some(b"445.12".as_slice()));
}

#[test]
fn numeric_token_forms_accepted() {
    let content =
        b"BEGIN IONS\nPEPMASS=4.4512e2\n-1.5 +2.0\n.5 1.\n7 8\n1E3 2e-4\nEND IONS\n".to_vec();
    let records = extract_spectra(&content, Strategy::Generic).unwrap();
    assert_eq!(records[0].peaks.len(), 4);
    assert_eq!(records[0].peaks[0].mz, b"-1.5".to_vec());
    assert_eq!(records[0].peaks[3].intensity, b"2e-4".to_vec());
    assert_eq!(records[0].precursor_mz.as_deref(), Some(b"4.4512e2".as_slice()));
}

#[test]
fn consecutive_features_grouped_in_order() {
    let text = "BEGIN IONS\n\
        FEATURE_ID=3\n\
        PEPMASS=100.5\n\
        MSLEVEL=2\n\
        10.0 1.0\n\
        END IONS\n\
        BEGIN IONS\n\
        FEATURE_ID=9\n\
        PEPMASS=200.5\n\
        MSLEVEL=2\n\
        20.0 2.0\n\
        END IONS\n";
    let content = text.as_bytes().to_vec();
    let records = extract_spectra(&content, Strategy::FeatureCentric).unwrap();
    assert_eq!(records.len(), 2);
    assert_eq!(records[0].id, 3);
    assert_eq!(records[1].id, 9);
    assert_eq!(count_spectra(&content, Strategy::FeatureCentric).unwrap(), 2);
}
