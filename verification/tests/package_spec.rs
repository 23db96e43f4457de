use ruget::{PackageSpec, PackageSpecError, Range, SemverErrorKind, SpecErrorKind};

type Result<T> = std::result::Result<T, PackageSpecError>;

fn parse(input: &str) -> Result<PackageSpec> {
    input.parse()
}

fn version_req(input: &str) -> Option<Range> {
    Some(Range::parse(input).unwrap())
}

#[test]
fn nuget_nuget_pkg_basic() -> Result<()> {
    let res = parse("hello-world")?;
    assert_eq!(
        res,
        PackageSpec::NuGet {
            name: "hello-world".into(),
            requested: None
        }
    );
    Ok(())
}

#[test]
fn nuget_nuget_pkg_prefixed() -> Result<()> {
    let res = parse("nuget:hello-world")?;
    assert_eq!(
        res,
        PackageSpec::NuGet {
            name: "hello-world".into(),
            requested: None
        }
    );
    Ok(())
}

#[test]
fn nuget_nuget_pkg_with_req() -> Result<()> {
    let res = parse("hello-world@1.2.3")?;
    assert_eq!(
        res,
        PackageSpec::NuGet {
            name: "hello-world".into(),
            requested: Some(Range::parse("1.2.3").unwrap())
        }
    );
    Ok(())
}

#[test]
fn odd_nuget_example_with_prerelease() -> Result<()> {
    let res = parse("world@>1.1.0-beta-10")?;
    assert_eq!(
        res,
        PackageSpec::NuGet {
            name: "world".into(),
            requested: version_req(">1.1.0-beta-10"),
        }
    );
    Ok(())
}

#[test]
fn approximately_equivalent_version() -> Result<()> {
    let res = parse("world@~1.1.0")?;
    assert_eq!(
        res,
        PackageSpec::NuGet {
            name: "world".into(),
            requested: version_req("~1.1.0"),
        }
    );
    Ok(())
}

#[test]
fn compatible_equivalent_version() -> Result<()> {
    let res = parse("world@^1.1.0")?;
    assert_eq!(
        res,
        PackageSpec::NuGet {
            name: "world".into(),
            requested: version_req("^1.1.0"),
        }
    );
    Ok(())
}

#[test]
fn x_version() -> Result<()> {
    let res = parse("world@1.1.x")?;
    assert_eq!(
        res,
        PackageSpec::NuGet {
            name: "world".into(),
            requested: version_req("1.1.x"),
        }
    );
    Ok(())
}

#[test]
fn hyphen_version_range() -> Result<()> {
    let res = parse("world@1.5.0 - 2.1.0")?;
    assert_eq!(
        res,
        PackageSpec::NuGet {
            name: "world".into(),
            requested: version_req("1.5.0 - 2.1.0"),
        }
    );
    Ok(())
}

#[test]
fn alternate_version_ranges() -> Result<()> {
    let res = parse("world@1.5.0 - 2.1.0 || 2.3.x")?;
    assert_eq!(
        res,
        PackageSpec::NuGet {
            name: "world".into(),
            requested: version_req("1.5.0 - 2.1.0 || 2.3.x"),
        }
    );
    Ok(())
}

#[test]
fn nuget_pkg_bad_tag() -> Result<()> {
    let res = parse("hello-world@%&W$@#$");
    assert!(res.is_err());
    Ok(())
}

#[test]
fn paths_name_directories() {
    for (text, path) in [
        ("./here", "./here"),
        ("../up/there", "../up/there"),
        (".", "."),
        ("/abs/path", "/abs/path"),
        ("\\\\server\\share", "\\\\server\\share"),
        ("C:\\work", "C:\\work"),
        ("file:./here", "./here"),
        ("FILE:/abs", "/abs"),
        ("file:d:/x@1", "d:/x@1"),
    ] {
        assert_eq!(parse(text).unwrap(), PackageSpec::Dir { path: path.into() }, "{}", text);
    }
}

#[test]
fn names_and_ranges() {
    assert_eq!(
        parse("NuGet:Newtonsoft.Json@[12,13)").unwrap(),
        PackageSpec::NuGet {
            name: "Newtonsoft.Json".into(),
            requested: version_req("[12.0, 13)"),
        }
    );
    assert_ne!(parse("a@1.2.3").unwrap(), parse("a@1.2.4").unwrap());
    assert_ne!(parse("a@1.2.3").unwrap(), parse("b@1.2.3").unwrap());
    assert_ne!(parse("a@1.2.3").unwrap(), parse("a").unwrap());
    assert_ne!(parse("a").unwrap(), parse("./a").unwrap());
}

fn failure(text: &str) -> (SpecErrorKind, usize) {
    let error = parse(text).unwrap_err();
    assert_eq!(error.input, text);
    (error.kind, error.offset)
}

#[test]
fn spec_errors_say_what_and_where() {
    assert_eq!(failure(""), (SpecErrorKind::IncompleteInput, 0));
    assert_eq!(failure("nuget:"), (SpecErrorKind::IncompleteInput, 6));
    assert_eq!(failure("@1.2.3"), (SpecErrorKind::InvalidCharacters, 0));
    assert_eq!(failure("hello world"), (SpecErrorKind::InvalidCharacters, 5));
    assert_eq!(failure("file:x"), (SpecErrorKind::InvalidCharacters, 4));
    assert_eq!(
        failure("hello@"),
        (SpecErrorKind::SemverParseError(SemverErrorKind::IncompleteInput), 6)
    );
    assert_eq!(
        failure("hello@1.2.3 ||"),
        (SpecErrorKind::SemverParseError(SemverErrorKind::IncompleteInput), 13)
    );
    assert_eq!(
        failure("hello-world@%&W$@#$"),
        (
            SpecErrorKind::SemverParseError(SemverErrorKind::InvalidComponent(
                ruget::Component::VersionCore
            )),
            12
        )
    );
    assert_eq!(
        failure("nuget:a@1.2.3 4"),
        (SpecErrorKind::SemverParseError(SemverErrorKind::Other), 14)
    );
}
