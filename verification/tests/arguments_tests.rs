use workspace_analyzer::arguments::{parse_file_export_options, Arguments, FileExportOptions};

#[test]
fn test_parse_export_options() {
    assert_eq!(parse_file_export_options("svg"), Ok(FileExportOptions::SVG));
    assert_eq!(parse_file_export_options("SVG"), Ok(FileExportOptions::SVG));
    assert_eq!(parse_file_export_options("mmd"), Ok(FileExportOptions::MMD));
    assert_eq!(parse_file_export_options("Mmd"), Ok(FileExportOptions::MMD));
}

#[test]
fn test_parse_export_options_rejects_unknown() {
    assert_eq!(
        parse_file_export_options("png"),
        Err("Invalid output format: png. Allowed: svg, mmd".to_owned())
    );
}

#[test]
fn test_export_options_from_str() {
    assert_eq!("sVg".parse::<FileExportOptions>(), Ok(FileExportOptions::SVG));
    assert!("".parse::<FileExportOptions>().is_err());
}

#[test]
fn test_arguments_hold_their_fields() {
    let args = Arguments {
        directory: ".".to_owned(),
        output_format: FileExportOptions::SVG,
    };
    assert_eq!(args.directory, ".");
    assert_eq!(args.output_format, FileExportOptions::SVG);
}
