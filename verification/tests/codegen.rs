use despatma_dependency_container::lifetime::Location;
use despatma_dependency_container::output;
use proc_macro2::Span;

fn s(text: &str) -> String {
    text.to_string()
}

fn config_dependency() -> output::Dependency {
    output::Dependency {
        attrs: vec![],
        block: s("{ Config::new().await }"),
        constness: false,
        asyncness: true,
        unsafety: false,
        abi: None,
        ident: s("config"),
        ident_span: Location(Span::call_site()),
        generics: String::new(),
        inputs: vec![s("&self")],
        variadic: None,
        ty: s("&Config"),
        create_asyncness: true,
        create_ident: s("create_config"),
        create_ident_span: Location(Span::call_site()),
        is_managed: true,
        create_ty: s("Config"),
        dependencies: vec![],
    }
}

fn service_dependency() -> output::Dependency {
    output::Dependency {
        attrs: vec![],
        block: s("{ Service::new(config) }"),
        constness: false,
        asyncness: true,
        unsafety: false,
        abi: None,
        ident: s("service"),
        ident_span: Location(Span::call_site()),
        generics: String::new(),
        inputs: vec![s("&self"), s("config: &Config")],
        variadic: None,
        ty: s("Service"),
        create_asyncness: false,
        create_ident: s("create_service"),
        create_ident_span: Location(Span::call_site()),
        is_managed: false,
        create_ty: s("Service"),
        dependencies: vec![output::ChildDependency {
            ident: s("config"),
            ident_span: Location(Span::call_site()),
            awaitness: true,
            is_ref: true,
        }],
    }
}

#[test]
fn managed_dependency_source() {
    let mut code = String::new();
    config_dependency().to_tokens(&mut code);
    assert_eq!(
        code,
        "async fn create_config(&self) -> Config { Config::new().await }\n\
         pub async fn config(&self) -> &Config {\n\
         self.config.get_or_init(self.create_config()).await\n}\n"
    );
}

#[test]
fn transient_dependency_source() {
    let mut code = s("// prefix\n");
    service_dependency().to_tokens(&mut code);
    assert_eq!(
        code,
        "// prefix\n\
         fn create_service(&self, config: &Config) -> Service { Service::new(config) }\n\
         pub async fn service(&self) -> Service {\n\
         let config = self.config().await;\n\
         self.create_service(&config)\n}\n"
    );
}

#[test]
fn qualifiers_attributes_and_variadic() {
    let d = output::Dependency {
        attrs: vec![s("#[inline]"), s("#[must_use]")],
        block: s("{ 0 }"),
        constness: true,
        asyncness: false,
        unsafety: true,
        abi: Some(s("extern \"C\"")),
        ident: s("raw"),
        ident_span: Location(Span::call_site()),
        generics: s("<T>"),
        inputs: vec![s("&self")],
        variadic: Some(s("...")),
        ty: s("u8"),
        create_asyncness: false,
        create_ident: s("create_raw"),
        create_ident_span: Location(Span::call_site()),
        is_managed: false,
        create_ty: s("u8"),
        dependencies: vec![
            output::ChildDependency { ident: s("a"), ident_span: Location(Span::call_site()), awaitness: false, is_ref: false },
            output::ChildDependency { ident: s("b"), ident_span: Location(Span::call_site()), awaitness: false, is_ref: true },
        ],
    };
    let mut code = String::new();
    d.to_tokens(&mut code);
    assert_eq!(
        code,
        "const unsafe extern \"C\" fn create_raw<T>(&self, ...) -> u8 { 0 }\n\
         #[inline]\n#[must_use]\n\
         pub const unsafe extern \"C\" fn raw<T>(&self) -> u8 {\n\
         let a = self.a();\nlet b = self.b();\n\
         self.create_raw(a, &b)\n}\n"
    );
}

#[test]
fn container_source() {
    let container = output::Container {
        attrs: vec![],
        self_ty: s("Container"),
        lifetime_generic: None,
        fields: Some(vec![output::Field {
            ident: s("config"),
            ty: s("std::rc::Rc<std::cell::OnceCell<Config>>"),
        }]),
        constructors: vec![output::FieldValue { ident: s("config"), init: s("Default::default()") }],
        scope_constructors: vec![output::FieldValue {
            ident: s("config"),
            init: s("self.config.clone()"),
        }],
        dependencies: vec![config_dependency(), service_dependency()],
    };
    let mut code = String::new();
    container.to_tokens(&mut code);
    let expected = "struct Container { config: std::rc::Rc<std::cell::OnceCell<Config>> }\n\n\
         impl Container {\n\
         pub fn new() -> Self {\nSelf { config: Default::default() }\n}\n\n\
         pub fn new_scope(&self) -> Self {\nSelf { config: self.config.clone() }\n}\n\n\
         async fn create_config(&self) -> Config { Config::new().await }\n\
         pub async fn config(&self) -> &Config {\n\
         self.config.get_or_init(self.create_config()).await\n}\n\
         fn create_service(&self, config: &Config) -> Service { Service::new(config) }\n\
         pub async fn service(&self) -> Service {\n\
         let config = self.config().await;\n\
         self.create_service(&config)\n}\n\
         }\n";
    assert_eq!(code, expected);
    assert!(syn::parse_file(&code).is_ok());
}

#[test]
fn container_without_fields_source() {
    let container = output::Container {
        attrs: vec![s("#[derive(Clone)]")],
        self_ty: s("Empty"),
        lifetime_generic: None,
        fields: None,
        constructors: vec![],
        scope_constructors: vec![],
        dependencies: vec![],
    };
    let mut code = String::new();
    container.to_tokens(&mut code);
    assert_eq!(
        code,
        "#[derive(Clone)]\nstruct Empty;\n\nimpl Empty {\n\
         pub fn new() -> Self {\nSelf\n}\n\n\
         pub fn new_scope(&self) -> Self {\nSelf\n}\n\n}\n"
    );
    assert!(syn::parse_file(&code).is_ok());
}

#[test]
fn container_with_lifetime_source() {
    let container = output::Container {
        attrs: vec![],
        self_ty: s("App"),
        lifetime_generic: Some(s("<'a>")),
        fields: Some(vec![
            output::Field {
                ident: s("db"),
                ty: s("std::rc::Rc<std::cell::OnceCell<std::boxed::Box<dyn DB + 'a>>>"),
            },
            output::Field { ident: s("session"), ty: s("std::cell::OnceCell<Session>") },
        ]),
        constructors: vec![
            output::FieldValue { ident: s("db"), init: s("Default::default()") },
            output::FieldValue { ident: s("session"), init: s("Default::default()") },
        ],
        scope_constructors: vec![
            output::FieldValue { ident: s("db"), init: s("self.db.clone()") },
            output::FieldValue { ident: s("session"), init: s("Default::default()") },
        ],
        dependencies: vec![],
    };
    let mut code = String::new();
    container.to_tokens(&mut code);
    assert_eq!(
        code,
        "struct App<'a> { db: std::rc::Rc<std::cell::OnceCell<std::boxed::Box<dyn DB + 'a>>>, \
         session: std::cell::OnceCell<Session> }\n\n\
         impl<'a> App<'a> {\n\
         pub fn new() -> Self {\nSelf { db: Default::default(), session: Default::default() }\n}\n\n\
         pub fn new_scope(&self) -> Self {\nSelf { db: self.db.clone(), session: Default::default() }\n}\n\n}\n"
    );
    assert!(syn::parse_file(&code).is_ok());
}

#[test]
fn managed_sync_dependency_source() {
    let mut d = config_dependency();
    d.asyncness = false;
    d.create_asyncness = false;
    d.block = s("{ Config::new() }");
    let mut code = String::new();
    d.to_tokens(&mut code);
    assert_eq!(
        code,
        "fn create_config(&self) -> Config { Config::new() }\n\
         pub fn config(&self) -> &Config {\n\
         self.config.get_or_init(|| self.create_config())\n}\n"
    );
    assert!(syn::parse_file(&code).is_ok());
}
