use ccc::link::arguments::{
    driver_library_directories, is_absolute_path, join_path, library_file_names,
};

#[test]
fn absolute_paths_start_with_a_slash() {
    assert!(is_absolute_path("/usr/include"));
    assert!(!is_absolute_path("include"));
    assert!(!is_absolute_path(""));
}

#[test]
fn join_inserts_one_separator() {
    assert_eq!(join_path("/usr", "include"), "/usr/include");
    assert_eq!(join_path("/usr/", "include"), "/usr/include");
    assert_eq!(join_path("", "include"), "include");
    assert_eq!(join_path("/usr", ""), "/usr/");
}

#[test]
fn join_with_an_absolute_path_replaces_the_base() {
    assert_eq!(join_path("/usr", "/opt/include"), "/opt/include");
}

#[test]
fn reported_library_directories_come_from_the_first_libraries_line() {
    let output = "install: /usr/lib/gcc/\nprograms: =/usr/bin\nlibraries: =/usr/lib/gcc:/usr/lib\nlibraries: /other\n";
    assert_eq!(
        driver_library_directories(output, None),
        vec!["/usr/lib/gcc".to_string(), "/usr/lib".to_string()]
    );
    assert!(driver_library_directories("install: /usr\n", None).is_empty());
    assert_eq!(driver_library_directories("libraries:", None), vec![String::new()]);
}

#[test]
fn library_options_name_shared_then_static_files() {
    assert_eq!(library_file_names("m", false, false), vec!["libm.so".to_string(), "libm.a".to_string()]);
    assert_eq!(library_file_names("m", false, true), vec!["libm.dylib".to_string(), "libm.a".to_string()]);
    assert_eq!(library_file_names("m", true, false), vec!["libm.a".to_string()]);
    assert_eq!(library_file_names(":crt1.o", false, false), vec!["crt1.o".to_string()]);
}
