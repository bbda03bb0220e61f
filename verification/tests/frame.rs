use vroomrs::frame::{trim_package, Data, Frame};
use vroomrs::packageutil::is_cocoa_application_package;
use vroomrs::platform::Platform;

const OCK_UUID: &str = "00000000-0000-0000-0000-000000000000";

fn simulator_package() -> String {
    format!(
        "/Users/runner/Library/Developer/CoreSimulator/Devices/{}/data/Containers/Bundle/Application/{}/iOS-Swift.app/Frameworks/libclang_rt.asan_iossim_dynamic.dylib",
        OCK_UUID, OCK_UUID,
    )
}

#[test]
fn test_is_cocoa_application_frame() {
    struct TestStruct {
        name: String,
        frame: Frame,
        is_application: bool,
    }

    let test_cases = vec![
        TestStruct {
            name: "main".to_string(),
            frame: Frame {
                function: Some("main".to_string()),
                status: Some("symbolicated".to_string()),
                package: Some(simulator_package()),
                ..Default::default()
            },
            is_application: false,
        },
        TestStruct {
            name: "main must be symbolicated".to_string(),
            frame: Frame {
                function: Some("main".to_string()),
                package: Some(simulator_package()),
                ..Default::default()
            },
            is_application: true,
        },
        TestStruct {
            name: "__sanitizer::StackDepotNode::store(unsigned int, __sanitizer::StackTrace const&, unsigned long long)".to_string(),
            frame: Frame {
                function: Some("__sanitizer::StackDepotNode::store(unsigned int, __sanitizer::StackTrace const&, unsigned long long)".to_string()),
                package: Some(simulator_package()),
                ..Default::default()
            },
            is_application: true,
        },
        TestStruct {
            name: "symbolicate_internal".to_string(),
            frame: Frame {
                function: Some("symbolicate_internal".to_string()),
                package: Some("/private/var/containers/Bundle/Application/00000000-0000-0000-0000-000000000000/App.app/Frameworks/Sentry.framework/Sentry".to_string()),
                ..Default::default()
            },
            is_application: false,
        },
    ];

    for test_case in test_cases {
        let is_app = test_case.frame.is_cocoa_application_frame();
        assert_eq!(
            is_app, test_case.is_application,
            "test: {}\nexpected: {} - got: {}",
            test_case.name, test_case.is_application, is_app
        );
    }
}

#[test]
fn test_is_python_application_frame() {
    struct TestStruct {
        name: String,
        frame: Frame,
        is_application: bool,
    }

    let test_cases = vec![
        TestStruct {
            name: "empty".to_string(),
            frame: Frame {
                ..Default::default()
            },
            is_application: true,
        },
        TestStruct {
            name: "empty".to_string(),
            frame: Frame {
                module: Some("app".to_string()),
                file: Some("app.py".to_string()),
                path: Some("/home/user/app/app.py".to_string()),
                ..Default::default()
            },
            is_application: true,
        },
        TestStruct {
            name: "app.utils".to_string(),
            frame: Frame {
                module: Some("app.utils".to_string()),
                file: Some("app/utils.py".to_string()),
                path: Some("/home/user/app/app/utils.py".to_string()),
                ..Default::default()
            },
            is_application: true,
        },
        TestStruct {
            name: "site-packges unix".to_string(),
            frame: Frame {
                path: Some("/usr/local/lib/python3.10/site-packages/urllib3/request.py".to_string()),
                ..Default::default()
            },
            is_application: false,
        },
        TestStruct {
            name: "site-packges dos".to_string(),
            frame: Frame {
                path: Some("C:\\Users\\user\\AppData\\Local\\Programs\\Python\\Python310\\lib\\site-packages\\urllib3\\request.py".to_string()),
                ..Default::default()
            },
            is_application: false,
        },
        TestStruct {
            name: "dist-packges unix".to_string(),
            frame: Frame {
                path: Some("/usr/local/lib/python3.10/dist-packages/urllib3/request.py".to_string()),
                ..Default::default()
            },
            is_application: false,
        },
        TestStruct {
            name: "dist-packges dos".to_string(),
            frame: Frame {
                path: Some("C:\\Users\\user\\AppData\\Local\\Programs\\Python\\Python310\\lib\\dist-packages\\urllib3\\request.py".to_string()),
                ..Default::default()
            },
            is_application: false,
        },
        TestStruct {
            name: "stdlib".to_string(),
            frame: Frame {
                module: Some("multiprocessing.pool".to_string()),
                ..Default::default()
            },
            is_application: false,
        },
        TestStruct {
            name: "sentry_sdk".to_string(),
            frame: Frame {
                module: Some("sentry_sdk.profiler".to_string()),
                ..Default::default()
            },
            is_application: false,
        },
    ];

    for test_case in test_cases {
        let is_app = test_case.frame.is_python_application_frame();
        assert_eq!(
            is_app, test_case.is_application,
            "test: {}\nexpected: {} - got: {}",
            test_case.name, test_case.is_application, is_app
        );
    }
}

#[test]
fn test_is_node_application_frame() {
    struct TestStruct {
        name: String,
        frame: Frame,
        is_application: bool,
    }

    let test_cases = vec![
        TestStruct {
            name: "empty".to_string(),
            frame: Frame {
                ..Default::default()
            },
            is_application: true,
        },
        TestStruct {
            name: "empty".to_string(),
            frame: Frame {
                path: Some("/home/user/app/app.js".to_string()),
                ..Default::default()
            },
            is_application: true,
        },
        TestStruct {
            name: "node_modules".to_string(),
            frame: Frame {
                path: Some("/home/user/app/node_modules/express/lib/express.js".to_string()),
                ..Default::default()
            },
            is_application: false,
        },
        TestStruct {
            name: "internal".to_string(),
            frame: Frame {
                path: Some("node:internal/process/task_queues".to_string()),
                ..Default::default()
            },
            is_application: false,
        },
    ];
    for test_case in test_cases {
        let is_app = test_case.frame.is_node_application_frame();
        assert_eq!(
            is_app, test_case.is_application,
            "test: {}\nexpected: {} - got: {}",
            test_case.name, test_case.is_application, is_app
        );
    }
}

#[test]
fn test_is_javascript_application_frame() {
    struct TestStruct {
        name: String,
        frame: Frame,
        is_application: bool,
    }

    let test_cases = vec![
        TestStruct {
            name: "empty".to_string(),
            frame: Frame {
                ..Default::default()
            },
            is_application: true,
        },
        TestStruct {
            name: "app".to_string(),
            frame: Frame {
                path: Some("/home/user/app/app.js".to_string()),
                ..Default::default()
            },
            is_application: true,
        },
        TestStruct {
            name: "node_modules".to_string(),
            frame: Frame {
                path: Some("/home/user/app/node_modules/express/lib/express.js".to_string()),
                ..Default::default()
            },
            is_application: false,
        },
        TestStruct {
            name: "app".to_string(),
            frame: Frame {
                path: Some(
                    "@moz-extension://00000000-0000-0000-0000-000000000000/app.js".to_string(),
                ),
                ..Default::default()
            },
            is_application: false,
        },
        TestStruct {
            name: "app".to_string(),
            frame: Frame {
                path: Some(
                    "chrome-extension://00000000-0000-0000-0000-000000000000/app.js".to_string(),
                ),
                ..Default::default()
            },
            is_application: false,
        },
        TestStruct {
            name: "native".to_string(),
            frame: Frame {
                function: Some("[Native] functionPrototypeApply".to_string()),
                ..Default::default()
            },
            is_application: false,
        },
        TestStruct {
            name: "host_function".to_string(),
            frame: Frame {
                function: Some("[HostFunction] nativeCallSyncHook".to_string()),
                ..Default::default()
            },
            is_application: false,
        },
        TestStruct {
            name: "gc".to_string(),
            frame: Frame {
                function: Some("[GC Young Gen]".to_string()),
                ..Default::default()
            },
            is_application: false,
        },
    ];
    for test_case in test_cases {
        let is_app = test_case.frame.is_javascript_application_frame();
        assert_eq!(
            is_app, test_case.is_application,
            "test: {}\nexpected: {} - got: {}",
            test_case.name, test_case.is_application, is_app
        );
    }
}

#[test]
fn test_is_php_application_frame() {
    struct TestStruct {
        name: String,
        frame: Frame,
        is_application: bool,
    }

    let test_cases = vec![
        TestStruct {
            name: "empty".to_string(),
            frame: Frame {
                ..Default::default()
            },
            is_application: true,
        },
        TestStruct {
            name: "file".to_string(),
            frame: Frame {
                function: Some("/var/www/http/webroot/index.php".to_string()),
                file: Some("/var/www/http/webroot/index.php".to_string()),
                ..Default::default()
            },
            is_application: true,
        },
        TestStruct {
            name: "src".to_string(),
            frame: Frame {
                function: Some("App\\Middleware\\SentryMiddleware::process".to_string()),
                file: Some("/var/www/http/src/Middleware/SentryMiddleware.php".to_string()),
                ..Default::default()
            },
            is_application: true,
        },
        TestStruct {
            name: "vendor".to_string(),
            frame: Frame {
                function: Some("Cake\\Http\\Client::send".to_string()),
                path: Some("/var/www/http/vendor/cakephp/cakephp/src/Http/Client.php".to_string()),
                ..Default::default()
            },
            is_application: false,
        },
    ];
    for test_case in test_cases {
        let is_app = test_case.frame.is_php_application_frame();
        assert_eq!(
            is_app, test_case.is_application,
            "test: {}\nexpected: {} - got: {}",
            test_case.name, test_case.is_application, is_app
        );
    }
}

#[test]
fn test_trim_package() {
    struct TestStruct {
        pkg: String,
        expected: String,
    }
    let test_cases = [
        TestStruct {
            pkg: "/System/Library/PrivateFrameworks/UIKitCore.framework/UIKitCore".to_string(),
            expected: "UIKitCore".to_string(),
        },
        TestStruct {
            // strips the .dylib
            pkg: "/usr/lib/system/libsystem_pthread.dylib".to_string(),
            expected: "libsystem_pthread".to_string(),
        },
        TestStruct {
            pkg: "/lib/x86_64-linux-gnu/libc.so.6".to_string(),
            expected: "libc.so.6".to_string(),
        },
        TestStruct {
            pkg: "/foo".to_string(),
            expected: "foo".to_string(),
        },
        TestStruct {
            pkg: "/foo/".to_string(),
            expected: "foo".to_string(),
        },
        TestStruct {
            pkg: "/foo//".to_string(),
            expected: "foo".to_string(),
        },
        TestStruct {
            pkg: "C:\\WINDOWS\\SYSTEM32\\ntdll.dll".to_string(),
            expected: "ntdll".to_string(),
        },
        TestStruct {
            pkg: "C:\\Program Files\\Foo 2023.3\\bin\\foo.exe".to_string(),
            expected: "foo".to_string(),
        },
    ];
    for test_case in test_cases {
        let result = trim_package(test_case.pkg.as_ref());
        assert_eq!(
            result, test_case.expected,
            "expected: {} - got: {}",
            test_case.expected, result
        );
    }
}

#[test]
fn trim_package_edge_cases() {
    assert_eq!(trim_package(""), "");
    assert_eq!(trim_package("/"), "/");
    assert_eq!(trim_package("///"), "///");
    assert_eq!(trim_package("/a/b.so///"), "b");
    assert_eq!(trim_package("C:\\tools\\x.dll\\\\"), "x");
    assert_eq!(trim_package("foo//"), "foo");
    assert_eq!(trim_package("libfoo.so"), "libfoo");
    assert_eq!(trim_package("\\\\server\\share\\tool.exe"), "tool");
    assert_eq!(trim_package("c:\\bin\\tool.DLL"), "tool.DLL");
    assert_eq!(trim_package("/opt/lib/libz.a"), "libz");
    assert_eq!(trim_package("/a/b.dylib.so"), "b.dylib");
    assert_eq!(trim_package("dir\\file.dll"), "dir\\file");
    assert_eq!(trim_package("/ünï/cödé.so"), "cödé");
}

#[test]
fn module_or_package_prefers_the_module() {
    let frame = Frame {
        module: Some("app.views".to_string()),
        package: Some("/usr/lib/libfoo.so".to_string()),
        ..Default::default()
    };
    assert_eq!(frame.module_or_package(), "app.views");
    let frame = Frame {
        module: Some(String::new()),
        package: Some("/usr/lib/libfoo.so".to_string()),
        ..Default::default()
    };
    assert_eq!(frame.module_or_package(), "libfoo");
    let frame = Frame {
        package: Some(String::new()),
        ..Default::default()
    };
    assert_eq!(frame.module_or_package(), "");
    assert_eq!(Frame::default().module_or_package(), "");
}

#[test]
fn is_main_needs_a_symbolicated_frame() {
    let mut frame = Frame {
        function: Some("UIApplicationMain".to_string()),
        ..Default::default()
    };
    assert_eq!(frame.is_main(), (false, 0));
    frame.status = Some("symbolicated".to_string());
    assert_eq!(frame.is_main(), (true, -1));
    frame.function = Some("main".to_string());
    assert_eq!(frame.is_main(), (true, 0));
    frame.function = Some("mainly".to_string());
    assert_eq!(frame.is_main(), (false, 0));
    frame.function = None;
    assert_eq!(frame.is_main(), (false, 0));
}

#[test]
fn rust_frames_outside_the_toolchain_are_application() {
    let with_package = |p: &str| Frame {
        package: Some(p.to_string()),
        ..Default::default()
    };
    assert!(!Frame::default().is_rust_application_frame());
    assert!(with_package("/home/me/app/target/release/app").is_rust_application_frame());
    assert!(!with_package("/rustc/abc/library/std/src/rt.rs").is_rust_application_frame());
    assert!(!with_package("/home/x/library/std/src/rt.rs").is_rust_application_frame());
    assert!(!with_package("/usr/lib/system/libdyld.dylib").is_rust_application_frame());
    assert!(!with_package("/usr/local/rustup/toolchains/x").is_rust_application_frame());
    assert!(!with_package("/usr/local/cargo/registry/x").is_rust_application_frame());
    assert!(with_package("/opt/usr/local/cargo/registry/x").is_rust_application_frame());
}

#[test]
fn cocoa_application_packages() {
    assert!(is_cocoa_application_package("/private/var/containers/Bundle/x"));
    assert!(is_cocoa_application_package("/var/containers/Bundle/x"));
    assert!(is_cocoa_application_package("/Users/me/Library/Developer/Xcode/DerivedData/App"));
    assert!(is_cocoa_application_package("/x/data/Containers/Bundle/Application/y"));
    assert!(!is_cocoa_application_package("/usr/lib/system/libdyld.dylib"));
    assert!(!is_cocoa_application_package("/x/private/var/containers"));
    assert!(!is_cocoa_application_package(""));
}

#[test]
fn cocoa_system_packages_are_never_application() {
    let frame = Frame {
        function: Some("run".to_string()),
        module: Some("hermes".to_string()),
        package: Some("/private/var/containers/Bundle/Application/x/hermes".to_string()),
        ..Default::default()
    };
    assert!(!frame.is_cocoa_application_frame());
    let frame = Frame {
        function: Some("run".to_string()),
        ..Default::default()
    };
    assert!(!frame.is_cocoa_application_frame());
}

#[test]
fn python_path_below_usr_local_is_system() {
    let frame = Frame {
        module: Some("app".to_string()),
        path: Some("/usr/local/bin/tool.py".to_string()),
        ..Default::default()
    };
    assert!(!frame.is_python_application_frame());
    let frame = Frame {
        module: Some("os".to_string()),
        ..Default::default()
    };
    assert!(!frame.is_python_application_frame());
    let frame = Frame {
        module: Some("osx.path".to_string()),
        ..Default::default()
    };
    assert!(frame.is_python_application_frame());
    let frame = Frame {
        module: Some(".hidden".to_string()),
        ..Default::default()
    };
    assert!(frame.is_python_application_frame());
    let frame = Frame {
        module: Some("sentry_sdk".to_string()),
        ..Default::default()
    };
    assert!(!frame.is_python_application_frame());
    let frame = Frame {
        module: Some("sentry_sdk_extras.x".to_string()),
        ..Default::default()
    };
    assert!(frame.is_python_application_frame());
}

#[test]
fn javascript_empty_path_is_application() {
    let frame = Frame {
        path: Some(String::new()),
        ..Default::default()
    };
    assert!(frame.is_javascript_application_frame());
    assert!(frame.javascript_rule(true));
    let frame = Frame {
        path: Some("x".to_string()),
        ..Default::default()
    };
    assert!(!frame.javascript_rule(true));
    assert!(frame.javascript_rule(false));
}

#[test]
fn normalize_takes_status_and_platform_then_decides_in_app() {
    let mut frame = Frame {
        data: Some(Data {
            deobfuscation_status: None,
            symbolicator_status: Some("symbolicated".to_string()),
            js_symbolicated: None,
        }),
        function: Some("main".to_string()),
        package: Some("/private/var/containers/Bundle/Application/x/App".to_string()),
        ..Default::default()
    };
    frame.normalize(Platform::Cocoa);
    assert_eq!(frame.status, Some("symbolicated".to_string()));
    assert_eq!(frame.platform, Some(Platform::Cocoa));
    // main is symbolicated by now, so it counts as a system frame
    assert_eq!(frame.in_app, Some(false));
    assert!(!frame.is_in_app());
}

#[test]
fn normalize_keeps_a_declared_value_on_the_same_platform() {
    let mut frame = Frame {
        in_app: Some(true),
        platform: Some(Platform::Node),
        path: Some("/app/node_modules/x.js".to_string()),
        ..Default::default()
    };
    frame.normalize(Platform::Node);
    assert_eq!(frame.in_app, Some(true));
    assert!(frame.is_in_app());
}

#[test]
fn normalize_decides_again_for_an_embedded_frame() {
    let mut frame = Frame {
        in_app: Some(true),
        platform: Some(Platform::Cocoa),
        package: Some("/usr/lib/system/libdyld.dylib".to_string()),
        ..Default::default()
    };
    frame.normalize(Platform::JavaScript);
    assert_eq!(frame.platform, Some(Platform::Cocoa));
    assert_eq!(frame.in_app, Some(false));
}

#[test]
fn normalize_defaults_to_system_on_other_platforms() {
    for platform in [Platform::Android, Platform::Java] {
        let mut frame = Frame::default();
        frame.normalize(platform);
        assert_eq!(frame.platform, Some(platform));
        assert_eq!(frame.in_app, Some(false));
    }
    let mut frame = Frame::default();
    frame.normalize(Platform::Php);
    assert_eq!(frame.in_app, Some(true));
}

#[test]
fn normalize_is_idempotent() {
    let frames = vec![
        Frame::default(),
        Frame {
            in_app: Some(true),
            platform: Some(Platform::Cocoa),
            package: Some("/usr/lib/system/libdyld.dylib".to_string()),
            ..Default::default()
        },
        Frame {
            data: Some(Data {
                deobfuscation_status: None,
                symbolicator_status: Some("symbolicated".to_string()),
                js_symbolicated: Some(true),
            }),
            status: Some("missing".to_string()),
            function: Some("main".to_string()),
            package: Some("/var/containers/Bundle/Application/x/App".to_string()),
            ..Default::default()
        },
        Frame {
            data: Some(Data {
                deobfuscation_status: None,
                symbolicator_status: Some(String::new()),
                js_symbolicated: None,
            }),
            status: Some("missing".to_string()),
            module: Some("json.decoder".to_string()),
            ..Default::default()
        },
    ];
    for platform in [Platform::Cocoa, Platform::Python, Platform::JavaScript, Platform::Rust] {
        for frame in &frames {
            let mut once = frame.clone();
            once.normalize(platform);
            let mut twice = once.clone();
            twice.normalize(platform);
            assert_eq!(once, twice);
        }
    }
}

#[test]
fn set_status_ignores_an_empty_status() {
    let mut frame = Frame {
        data: Some(Data {
            deobfuscation_status: None,
            symbolicator_status: Some(String::new()),
            js_symbolicated: None,
        }),
        status: Some("missing".to_string()),
        ..Default::default()
    };
    frame.set_status();
    assert_eq!(frame.status, Some("missing".to_string()));
    frame.set_platform(Platform::Rust);
    frame.set_platform(Platform::Node);
    assert_eq!(frame.platform, Some(Platform::Rust));
    frame.set_in_app(Platform::Rust);
    assert_eq!(frame.in_app, Some(false));
}
