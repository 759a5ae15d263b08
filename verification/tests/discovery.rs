use std::num::{IntErrorKind, ParseIntError};
use std::path::Path;

use python_launcher::{
    all_executables, all_executables_in_paths, find_executable, find_executable_in_hashmap,
    flatten_directories, ComponentError, Error, ExactVersion, Executables, FileName, FilePath,
    RequestedVersion,
};

type ComponentSize = u16;

/// The library's name for a failure of the standard parser.
fn failure_of(error: ParseIntError) -> ComponentError {
    match error.kind() {
        IntErrorKind::Empty => ComponentError::Empty,
        IntErrorKind::InvalidDigit => ComponentError::InvalidDigit,
        IntErrorKind::PosOverflow => ComponentError::PosOverflow,
        other => panic!("unexpected failure: {:?}", other),
    }
}

/// The path `text`, with the final component that the platform reports for it.
fn file_path(text: &str) -> FilePath {
    let file_name = match Path::new(text).file_name() {
        None => FileName::Missing,
        Some(name) => match name.to_str() {
            None => FileName::NotText,
            Some(name) => FileName::Text(name.to_string()),
        },
    };
    FilePath {
        path: text.to_string(),
        file_name,
    }
}

#[test]
fn test_exactversion_from_path() {
    assert_eq!(
        ExactVersion::from_path(&file_path("/")),
        Err(Error::FileNameMissing)
    );
    assert_eq!(
        ExactVersion::from_path(&file_path("/notpython")),
        Err(Error::PathFileNameError)
    );
    assert_eq!(
        ExactVersion::from_path(&file_path("/python3")),
        Err(Error::PathFileNameError)
    );
    assert_eq!(
        ExactVersion::from_path(&file_path("/pythonX.Y")),
        Err(Error::ParseVersionComponentError(failure_of(
            "X".parse::<ComponentSize>().unwrap_err()
        )))
    );
    assert_eq!(
        ExactVersion::from_path(&file_path("/python42.13")),
        Ok(ExactVersion {
            major: 42,
            minor: 13
        })
    );
}

#[test]
fn test_all_executables_in_paths() {
    let python27_path = file_path("/dir1/python2.7");
    let python36_dir1_path = file_path("/dir1/python3.6");
    let python36_dir2_path = file_path("/dir2/python3.6");
    let python37_path = file_path("/dir2/python3.7");
    let files = vec![
        python27_path.clone(),
        python36_dir1_path.clone(),
        python36_dir2_path,
        python37_path.clone(),
    ];

    let executables = all_executables_in_paths(files);
    assert_eq!(executables.len(), 3);

    let python27_version = ExactVersion { major: 2, minor: 7 };
    assert!(executables.contains_key(&python27_version));
    assert_eq!(
        executables.get(&python27_version),
        Some(&python27_path.path)
    );

    let python36_version = ExactVersion { major: 3, minor: 6 };
    assert!(executables.contains_key(&python27_version));
    assert_eq!(
        executables.get(&python36_version),
        Some(&python36_dir1_path.path)
    );

    let python37_version = ExactVersion { major: 3, minor: 7 };
    assert!(executables.contains_key(&python37_version));
    assert_eq!(
        executables.get(&python37_version),
        Some(&python37_path.path)
    );
}

#[test]
fn test_find_executable_in_hashmap() {
    let mut executables = Executables::new();
    assert_eq!(
        find_executable_in_hashmap(RequestedVersion::Any, &executables),
        None
    );

    let python36_path = "/python3.6".to_string();
    executables.insert(ExactVersion { major: 3, minor: 6 }, python36_path.clone());

    let python37_path = "/python3.7".to_string();
    executables.insert(ExactVersion { major: 3, minor: 7 }, python37_path.clone());

    assert_eq!(
        find_executable_in_hashmap(RequestedVersion::Any, &executables),
        Some(python37_path.clone())
    );

    assert_eq!(
        find_executable_in_hashmap(RequestedVersion::MajorOnly(42), &executables),
        None
    );
    assert_eq!(
        find_executable_in_hashmap(RequestedVersion::MajorOnly(3), &executables),
        Some(python37_path)
    );

    assert_eq!(
        find_executable_in_hashmap(RequestedVersion::Exact(3, 8), &executables),
        None
    );
    assert_eq!(
        find_executable_in_hashmap(RequestedVersion::Exact(3, 6), &executables),
        Some(python36_path)
    );
}

#[test]
fn paths_without_a_final_component() {
    assert_eq!(file_path("/").file_name, FileName::Missing);
    assert_eq!(file_path("").file_name, FileName::Missing);
    assert_eq!(file_path("/usr/bin/..").file_name, FileName::Missing);
    assert_eq!(
        ExactVersion::from_path(&file_path("/usr/bin/..")),
        Err(Error::FileNameMissing)
    );
    assert_eq!(
        ExactVersion::from_path(&FilePath {
            path: "/usr/bin/python3.8".to_string(),
            file_name: FileName::Missing,
        }),
        Err(Error::FileNameMissing)
    );
}

#[test]
fn file_name_that_is_not_text() {
    assert_eq!(
        ExactVersion::from_path(&FilePath {
            path: "/usr/bin/python3.\u{fffd}".to_string(),
            file_name: FileName::NotText,
        }),
        Err(Error::FileNameToStrError)
    );
}

#[test]
fn file_names_that_are_too_short_or_lack_the_prefix() {
    for name in [
        "",
        "p",
        "python",
        "python3",
        "python.3",
        "python37",
        "python3.",
        "notpython",
        "Python3.8",
        "PYTHON3.8",
        "pithon3.8",
        "pytho3.88",
        "xpython3.8",
        " python3.8",
        "ppython3.8",
        "jython3.10",
        "3.8python",
        "python\u{e9}\u{e9}",
        "python.\u{e9}",
    ] {
        assert_eq!(
            ExactVersion::from_path(&FilePath {
                path: format!("/usr/bin/{}", name),
                file_name: FileName::Text(name.to_string()),
            }),
            Err(Error::PathFileNameError),
            "{:?}",
            name
        );
    }
}

#[test]
fn file_names_with_the_prefix_are_read_as_versions() {
    let read = |name: &str| {
        ExactVersion::from_path(&FilePath {
            path: format!("/opt/{}", name),
            file_name: FileName::Text(name.to_string()),
        })
    };
    assert_eq!(read("python3.0"), Ok(ExactVersion { major: 3, minor: 0 }));
    assert_eq!(
        read("python3.11"),
        Ok(ExactVersion {
            major: 3,
            minor: 11
        })
    );
    assert_eq!(
        read("python65535.65535"),
        Ok(ExactVersion {
            major: 65535,
            minor: 65535
        })
    );
    assert_eq!(read("pythonabc"), Err(Error::DotMissing));
    assert_eq!(read("python310"), Err(Error::DotMissing));
    assert_eq!(
        read("python3.8-config"),
        Err(Error::ParseVersionComponentError(
            ComponentError::InvalidDigit
        ))
    );
    assert_eq!(
        read("python3.8.1"),
        Err(Error::ParseVersionComponentError(
            ComponentError::InvalidDigit
        ))
    );
    assert_eq!(
        read("python.3.8"),
        Err(Error::ParseVersionComponentError(ComponentError::Empty))
    );
    assert_eq!(
        read("python38.."),
        Err(Error::ParseVersionComponentError(
            ComponentError::InvalidDigit
        ))
    );
    assert_eq!(
        read("python3.\u{e9}"),
        Err(Error::ParseVersionComponentError(
            ComponentError::InvalidDigit
        ))
    );
    assert_eq!(
        read("python3.99999"),
        Err(Error::ParseVersionComponentError(
            ComponentError::PosOverflow
        ))
    );
}

#[test]
fn only_the_final_component_is_read() {
    assert_eq!(
        ExactVersion::from_path(&file_path("/python3.9/python2.7")),
        Ok(ExactVersion { major: 2, minor: 7 })
    );
    assert_eq!(
        ExactVersion::from_path(&file_path("python3.12")),
        Ok(ExactVersion {
            major: 3,
            minor: 12
        })
    );
    assert_eq!(
        ExactVersion::from_path(&file_path("/python3.9/bin")),
        Err(Error::PathFileNameError)
    );
}

#[test]
fn executables_keep_one_path_for_a_version() {
    let mut executables = Executables::new();
    assert_eq!(executables.len(), 0);
    let version = ExactVersion { major: 3, minor: 8 };
    assert!(!executables.contains_key(&version));
    assert_eq!(executables.get(&version), None);

    assert_eq!(executables.insert(version, "/a/python3.8".to_string()), None);
    assert_eq!(executables.len(), 1);
    assert!(executables.contains_key(&version));
    assert_eq!(executables.get(&version), Some(&"/a/python3.8".to_string()));

    assert_eq!(
        executables.insert(version, "/b/python3.8".to_string()),
        Some("/a/python3.8".to_string())
    );
    assert_eq!(executables.len(), 1);
    assert_eq!(executables.get(&version), Some(&"/b/python3.8".to_string()));

    executables.or_insert(version, "/c/python3.8".to_string());
    assert_eq!(executables.len(), 1);
    assert_eq!(executables.get(&version), Some(&"/b/python3.8".to_string()));

    let other = ExactVersion { major: 8, minor: 3 };
    executables.or_insert(other, "/c/python8.3".to_string());
    assert_eq!(executables.len(), 2);
    assert_eq!(executables.get(&other), Some(&"/c/python8.3".to_string()));
    assert_eq!(executables.get(&version), Some(&"/b/python3.8".to_string()));

    let mut versions = executables.versions();
    versions.sort();
    assert_eq!(versions, vec![version, other]);
}

#[test]
fn replacing_a_path_leaves_the_other_versions_alone() {
    let mut executables = Executables::new();
    for minor in 0..10 {
        executables.or_insert(ExactVersion { major: 3, minor }, format!("/first/python3.{}", minor));
    }
    assert_eq!(
        executables.insert(ExactVersion { major: 3, minor: 4 }, "/second/python3.4".to_string()),
        Some("/first/python3.4".to_string())
    );
    assert_eq!(executables.len(), 10);
    for minor in 0..10 {
        let expected = if minor == 4 {
            "/second/python3.4".to_string()
        } else {
            format!("/first/python3.{}", minor)
        };
        assert_eq!(
            executables.get(&ExactVersion { major: 3, minor }),
            Some(&expected)
        );
    }
}

#[test]
fn paths_that_name_no_version_are_left_out() {
    let executables = all_executables_in_paths(vec![
        file_path("/"),
        file_path("/bin/ls"),
        file_path("/bin/python"),
        file_path("/bin/python3"),
        file_path("/bin/python3.x"),
        file_path("/bin/python3.8-config"),
        FilePath {
            path: "/bin/python3.7".to_string(),
            file_name: FileName::NotText,
        },
    ]);
    assert_eq!(executables.len(), 0);
    assert_eq!(executables.versions(), vec![]);
    assert_eq!(
        find_executable_in_hashmap(RequestedVersion::Any, &executables),
        None
    );

    let nothing = all_executables_in_paths(Vec::new());
    assert_eq!(nothing.len(), 0);
}

#[test]
fn the_first_path_of_a_version_is_kept() {
    let executables = all_executables_in_paths(vec![
        file_path("/c/python3.9"),
        file_path("/a/python3.9"),
        file_path("/b/python3.9"),
        file_path("/b/python3.10"),
        file_path("/a/python3.10"),
    ]);
    assert_eq!(executables.len(), 2);
    assert_eq!(
        executables.get(&ExactVersion { major: 3, minor: 9 }),
        Some(&"/c/python3.9".to_string())
    );
    assert_eq!(
        executables.get(&ExactVersion {
            major: 3,
            minor: 10
        }),
        Some(&"/b/python3.10".to_string())
    );
}

#[test]
fn nothing_found_resolves_to_nothing() {
    let executables = Executables::new();
    let requests = [
        RequestedVersion::Any,
        RequestedVersion::MajorOnly(0),
        RequestedVersion::MajorOnly(3),
        RequestedVersion::Exact(0, 0),
        RequestedVersion::Exact(3, 8),
    ];
    for requested in requests {
        assert_eq!(find_executable_in_hashmap(requested, &executables), None);
        assert_eq!(find_executable(requested, Vec::new()), None);
        assert_eq!(find_executable(requested, vec![None, Some(Vec::new())]), None);
    }
}

#[test]
fn the_highest_version_wins_by_number() {
    let mut executables = Executables::new();
    for (major, minor) in [(3, 9), (3, 10), (2, 7), (3, 2), (2, 11), (10, 0), (9, 99)] {
        executables.insert(
            ExactVersion { major, minor },
            format!("/bin/python{}.{}", major, minor),
        );
    }
    let find = |requested| find_executable_in_hashmap(requested, &executables);
    assert_eq!(find(RequestedVersion::Any), Some("/bin/python10.0".to_string()));
    assert_eq!(
        find(RequestedVersion::MajorOnly(3)),
        Some("/bin/python3.10".to_string())
    );
    assert_eq!(
        find(RequestedVersion::MajorOnly(2)),
        Some("/bin/python2.11".to_string())
    );
    assert_eq!(
        find(RequestedVersion::MajorOnly(9)),
        Some("/bin/python9.99".to_string())
    );
    assert_eq!(find(RequestedVersion::MajorOnly(4)), None);
    assert_eq!(
        find(RequestedVersion::Exact(3, 2)),
        Some("/bin/python3.2".to_string())
    );
    assert_eq!(find(RequestedVersion::Exact(3, 1)), None);
    assert_eq!(find(RequestedVersion::Exact(2, 9)), None);
}

#[test]
fn resolution_does_not_depend_on_the_order_of_insertion() {
    let versions = [(3u16, 6u16), (3, 7), (2, 7), (4, 0)];
    let orders = [[0, 1, 2, 3], [3, 2, 1, 0], [1, 3, 0, 2], [2, 0, 3, 1]];
    for order in orders {
        let mut executables = Executables::new();
        for i in order {
            let (major, minor) = versions[i];
            executables.insert(ExactVersion { major, minor }, format!("/python{}.{}", major, minor));
        }
        assert_eq!(
            find_executable_in_hashmap(RequestedVersion::Any, &executables),
            Some("/python4.0".to_string())
        );
        assert_eq!(
            find_executable_in_hashmap(RequestedVersion::MajorOnly(3), &executables),
            Some("/python3.7".to_string())
        );
        assert_eq!(
            find_executable_in_hashmap(RequestedVersion::MajorOnly(2), &executables),
            Some("/python2.7".to_string())
        );
        assert_eq!(
            find_executable_in_hashmap(RequestedVersion::Exact(3, 6), &executables),
            Some("/python3.6".to_string())
        );
    }
}

#[test]
fn listings_are_joined_in_order() {
    let directories = vec![
        Some(vec![file_path("/a/x"), file_path("/a/python3.8")]),
        None,
        Some(Vec::new()),
        Some(vec![file_path("/b/python3.8")]),
        None,
        Some(vec![file_path("/c/z"), file_path("/c/y")]),
    ];
    let paths = flatten_directories(directories);
    let texts: Vec<&str> = paths.iter().map(|path| path.path.as_str()).collect();
    assert_eq!(
        texts,
        vec!["/a/x", "/a/python3.8", "/b/python3.8", "/c/z", "/c/y"]
    );
    assert_eq!(paths[1], file_path("/a/python3.8"));

    assert_eq!(flatten_directories(Vec::new()), Vec::new());
    assert_eq!(flatten_directories(vec![None, None]), Vec::new());
}

#[test]
fn directories_that_come_first_win() {
    let directories = || {
        vec![
            Some(vec![file_path("/dir1/python2.7"), file_path("/dir1/python3.6")]),
            None,
            Some(vec![file_path("/dir2/python3.6"), file_path("/dir2/python3.7")]),
        ]
    };
    let executables = all_executables(directories());
    assert_eq!(executables.len(), 3);
    assert_eq!(
        executables.get(&ExactVersion { major: 3, minor: 6 }),
        Some(&"/dir1/python3.6".to_string())
    );
    assert_eq!(
        executables.get(&ExactVersion { major: 2, minor: 7 }),
        Some(&"/dir1/python2.7".to_string())
    );
    assert_eq!(
        executables.get(&ExactVersion { major: 3, minor: 7 }),
        Some(&"/dir2/python3.7".to_string())
    );

    assert_eq!(
        find_executable(RequestedVersion::Any, directories()),
        Some("/dir2/python3.7".to_string())
    );
    assert_eq!(
        find_executable(RequestedVersion::MajorOnly(3), directories()),
        Some("/dir2/python3.7".to_string())
    );
    assert_eq!(
        find_executable(RequestedVersion::MajorOnly(2), directories()),
        Some("/dir1/python2.7".to_string())
    );
    assert_eq!(
        find_executable(RequestedVersion::Exact(3, 6), directories()),
        Some("/dir1/python3.6".to_string())
    );
    assert_eq!(
        find_executable(RequestedVersion::Exact(3, 8), directories()),
        None
    );
    assert_eq!(
        find_executable(RequestedVersion::MajorOnly(42), directories()),
        None
    );
}

#[test]
fn cloned_paths_are_equal() {
    for path in [
        file_path("/"),
        file_path("/bin/python3.8"),
        FilePath {
            path: "/bin/x".to_string(),
            file_name: FileName::NotText,
        },
    ] {
        assert_eq!(path.clone(), path);
        assert_eq!(path.file_name.clone(), path.file_name);
    }
}
