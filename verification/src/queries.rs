//! Tag queries, one per grammar.
//!
//! Each query names the identifier of a definition `name.definition.<kind>`
//! and that of a reference `name.reference.<kind>`; the surrounding node is
//! captured as `definition.<kind>` or `reference.<kind>`.
//!
//! The C, C++ and Swift queries tag call sites as references.  Every query
//! text starts with a line break.
use vstd::prelude::*;

use crate::grammar::is_piece;

verus! {

/// Tag query for Rust.
pub const RUST_SCM: &'static str = r##"
(struct_item
    name: (type_identifier) @name.definition.class) @definition.class

(enum_item
    name: (type_identifier) @name.definition.class) @definition.class

(union_item
    name: (type_identifier) @name.definition.class) @definition.class

(type_item
    name: (type_identifier) @name.definition.class) @definition.class

(declaration_list
    (function_item
        name: (identifier) @name.definition.method)) @definition.method

(function_item
    name: (identifier) @name.definition.function) @definition.function

(trait_item
    name: (type_identifier) @name.definition.interface) @definition.interface

(mod_item
    name: (identifier) @name.definition.module) @definition.module

(macro_definition
    name: (identifier) @name.definition.macro) @definition.macro

(call_expression
    function: (identifier) @name.reference.call) @reference.call

(call_expression
    function: (field_expression
        field: (field_identifier) @name.reference.call)) @reference.call

(macro_invocation
    macro: (identifier) @name.reference.call) @reference.call

(impl_item
    trait: (type_identifier) @name.reference.implementation) @reference.implementation

(impl_item
    type: (type_identifier) @name.reference.implementation
    !trait) @reference.implementation
"##;

/// Tag query for Python.
pub const PYTHON_SCM: &'static str = r##"
(module (expression_statement (assignment left: (identifier) @name.definition.constant) @definition.constant))

(class_definition
  name: (identifier) @name.definition.class) @definition.class

(function_definition
  name: (identifier) @name.definition.function) @definition.function

(call
  function: [
      (identifier) @name.reference.call
      (attribute
        attribute: (identifier) @name.reference.call)
  ]) @reference.call
"##;

/// Tag query for TypeScript (.ts and .tsx).
pub const TYPESCRIPT_SCM: &'static str = r##"
(function_signature
  name: (identifier) @name.definition.function) @definition.function

(method_signature
  name: (property_identifier) @name.definition.method) @definition.method

(abstract_method_signature
  name: (property_identifier) @name.definition.method) @definition.method

(abstract_class_declaration
  name: (type_identifier) @name.definition.class) @definition.class

(module
  name: (identifier) @name.definition.module) @definition.module

(interface_declaration
  name: (type_identifier) @name.definition.interface) @definition.interface

(type_annotation
  (type_identifier) @name.reference.type) @reference.type

(new_expression
  constructor: (identifier) @name.reference.class) @reference.class
"##;

/// Tag query for JavaScript.
pub const JAVASCRIPT_SCM: &'static str = r##"
(
  (comment)* @doc
  .
  (method_definition
    name: (property_identifier) @name.definition.method) @definition.method
  (#not-eq? @name.definition.method "constructor")
  (#strip! @doc "^[\\s\\*/]+|^[\\s\\*/]$")
  (#select-adjacent! @doc @definition.method)
)

(
  (comment)* @doc
  .
  [
    (class
      name: (_) @name.definition.class)
    (class_declaration
      name: (_) @name.definition.class)
  ] @definition.class
  (#strip! @doc "^[\\s\\*/]+|^[\\s\\*/]$")
  (#select-adjacent! @doc @definition.class)
)

(
  (comment)* @doc
  .
  [
    (function_expression
      name: (identifier) @name.definition.function)
    (function_declaration
      name: (identifier) @name.definition.function)
    (generator_function
      name: (identifier) @name.definition.function)
    (generator_function_declaration
      name: (identifier) @name.definition.function)
  ] @definition.function
  (#strip! @doc "^[\\s\\*/]+|^[\\s\\*/]$")
  (#select-adjacent! @doc @definition.function)
)

(
  (comment)* @doc
  .
  (lexical_declaration
    (variable_declarator
      name: (identifier) @name.definition.function
      value: [(arrow_function) (function_expression)]) @definition.function)
  (#strip! @doc "^[\\s\\*/]+|^[\\s\\*/]$")
  (#select-adjacent! @doc @definition.function)
)

(
  (comment)* @doc
  .
  (variable_declaration
    (variable_declarator
      name: (identifier) @name.definition.function
      value: [(arrow_function) (function_expression)]) @definition.function)
  (#strip! @doc "^[\\s\\*/]+|^[\\s\\*/]$")
  (#select-adjacent! @doc @definition.function)
)

(assignment_expression
  left: [
    (identifier) @name.definition.function
    (member_expression
      property: (property_identifier) @name.definition.function)
  ]
  right: [(arrow_function) (function_expression)]
) @definition.function

(pair
  key: (property_identifier) @name.definition.function
  value: [(arrow_function) (function_expression)]) @definition.function

(
  (call_expression
    function: (identifier) @name.reference.call) @reference.call
  (#not-match? @name.reference.call "^(require)$")
)

(call_expression
  function: (member_expression
    property: (property_identifier) @name.reference.call)
  arguments: (_) @reference.call)

(new_expression
  constructor: (_) @name.reference.class) @reference.class

(export_statement value: (assignment_expression left: (identifier) @name.definition.constant right: ([
 (number)
 (string)
 (identifier)
 (undefined)
 (null)
 (new_expression)
 (binary_expression)
 (call_expression)
]))) @definition.constant
"##;

/// Tag query for Go.
pub const GO_SCM: &'static str = r##"
(
  (comment)* @doc
  .
  (function_declaration
    name: (identifier) @name.definition.function) @definition.function
  (#strip! @doc "^//\\s*")
  (#set-adjacent! @doc @definition.function)
)

(
  (comment)* @doc
  .
  (method_declaration
    name: (field_identifier) @name.definition.method) @definition.method
  (#strip! @doc "^//\\s*")
  (#set-adjacent! @doc @definition.method)
)

(call_expression
  function: [
    (identifier) @name.reference.call
    (parenthesized_expression (identifier) @name.reference.call)
    (selector_expression field: (field_identifier) @name.reference.call)
    (parenthesized_expression (selector_expression field: (field_identifier) @name.reference.call))
  ]) @reference.call

(type_spec
  name: (type_identifier) @name.definition.type) @definition.type

(type_identifier) @name.reference.type @reference.type

(package_clause "package" (package_identifier) @name)

(type_declaration (type_spec name: (type_identifier) @name type: (interface_type)))

(type_declaration (type_spec name: (type_identifier) @name type: (struct_type)))

(import_declaration (import_spec) @name)

(var_declaration (var_spec name: (identifier) @name))

(const_declaration (const_spec name: (identifier) @name))
"##;

/// Tag query for Java.
pub const JAVA_SCM: &'static str = r##"
(class_declaration
  name: (identifier) @name.definition.class) @definition.class

(method_declaration
  name: (identifier) @name.definition.method) @definition.method

(method_invocation
  name: (identifier) @name.reference.call
  arguments: (argument_list) @reference.call)

(interface_declaration
  name: (identifier) @name.definition.interface) @definition.interface

(type_list
  (type_identifier) @name.reference.implementation) @reference.implementation

(object_creation_expression
  type: (type_identifier) @name.reference.class) @reference.class

(superclass (type_identifier) @name.reference.class) @reference.class
"##;

/// Tag query for Ruby.
pub const RUBY_SCM: &'static str = r##"
(
  (comment)* @doc
  .
  [
    (method
      name: (_) @name.definition.method) @definition.method
    (singleton_method
      name: (_) @name.definition.method) @definition.method
  ]
  (#strip! @doc "^#\\s*")
  (#select-adjacent! @doc @definition.method)
)

(alias
  name: (_) @name.definition.method) @definition.method

(setter
  (identifier) @ignore)

(
  (comment)* @doc
  .
  [
    (class
      name: [
        (constant) @name.definition.class
        (scope_resolution
          name: (_) @name.definition.class)
      ]) @definition.class
    (singleton_class
      value: [
        (constant) @name.definition.class
        (scope_resolution
          name: (_) @name.definition.class)
      ]) @definition.class
  ]
  (#strip! @doc "^#\\s*")
  (#select-adjacent! @doc @definition.class)
)

(
  (module
    name: [
      (constant) @name.definition.module
      (scope_resolution
        name: (_) @name.definition.module)
    ]) @definition.module
)

(call method: (identifier) @name.reference.call) @reference.call

(
  [(identifier) (constant)] @name.reference.call @reference.call
  (#is-not? local)
  (#not-match? @name.reference.call "^(lambda|load|require|require_relative|__FILE__|__LINE__)$")
)
"##;

/// Tag query for C.
pub const C_SCM: &'static str = r##"
(struct_specifier name: (type_identifier) @name.definition.class body:(_)) @definition.class

(declaration type: (union_specifier name: (type_identifier) @name.definition.class)) @definition.class

(function_declarator declarator: (identifier) @name.definition.function) @definition.function

(type_definition declarator: (type_identifier) @name.definition.type) @definition.type

(enum_specifier name: (type_identifier) @name.definition.type) @definition.type

(call_expression
  function: (identifier) @name.reference.call) @reference.call
"##;

/// Tag query for C++.
pub const CPP_SCM: &'static str = r##"
(struct_specifier name: (type_identifier) @name.definition.class body:(_)) @definition.class

(declaration type: (union_specifier name: (type_identifier) @name.definition.class)) @definition.class

(function_declarator declarator: (identifier) @name.definition.function) @definition.function

(function_declarator declarator: (field_identifier) @name.definition.function) @definition.function

(function_declarator declarator: (qualified_identifier scope: (namespace_identifier) @local.scope name: (identifier) @name.definition.method)) @definition.method

(type_definition declarator: (type_identifier) @name.definition.type) @definition.type

(enum_specifier name: (type_identifier) @name.definition.type) @definition.type

(class_specifier name: (type_identifier) @name.definition.class) @definition.class

(call_expression
  function: (identifier) @name.reference.call) @reference.call

(call_expression
  function: (field_expression
    field: (field_identifier) @name.reference.call)) @reference.call
"##;

/// Tag query for Swift.
pub const SWIFT_SCM: &'static str = r##"
(class_declaration
  name: (type_identifier) @name.definition.class) @definition.class

(protocol_declaration
  name: (type_identifier) @name.definition.interface) @definition.interface

(class_declaration
    (class_body
        [
            (function_declaration
                name: (simple_identifier) @name.definition.method
            )
            (subscript_declaration
                (parameter (simple_identifier) @name.definition.method)
            )
            (init_declaration "init" @name.definition.method)
            (deinit_declaration "deinit" @name.definition.method)
        ]
    )
) @definition.method

(protocol_declaration
    (protocol_body
        [
            (protocol_function_declaration
                name: (simple_identifier) @name.definition.method
            )
            (subscript_declaration
                (parameter (simple_identifier) @name.definition.method)
            )
            (init_declaration "init" @name.definition.method)
        ]
    )
) @definition.method

(class_declaration
    (class_body
        [
            (property_declaration
                (pattern (simple_identifier) @name.definition.property)
            )
        ]
    )
) @definition.property

(property_declaration
    (pattern (simple_identifier) @name.definition.property)
) @definition.property

(function_declaration
    name: (simple_identifier) @name.definition.function) @definition.function

(call_expression
  (simple_identifier) @name.reference.call) @reference.call

(call_expression
  (navigation_expression
    suffix: (navigation_suffix
      suffix: (simple_identifier) @name.reference.call))) @reference.call
"##;

/// The Rust query's length, and the definition patterns it holds.
pub proof fn lemma_rust_scm()
    ensures
        RUST_SCM@.len() == 1276,
        is_piece("(struct_item\n    name: (type_identifier) @name.definition.class)"@, RUST_SCM@),
{
    reveal_strlit(r##"
(struct_item
    name: (type_identifier) @name.definition.class) @definition.class

(enum_item
    name: (type_identifier) @name.definition.class) @definition.class

(union_item
    name: (type_identifier) @name.definition.class) @definition.class

(type_item
    name: (type_identifier) @name.definition.class) @definition.class

(declaration_list
    (function_item
        name: (identifier) @name.definition.method)) @definition.method

(function_item
    name: (identifier) @name.definition.function) @definition.function

(trait_item
    name: (type_identifier) @name.definition.interface) @definition.interface

(mod_item
    name: (identifier) @name.definition.module) @definition.module

(macro_definition
    name: (identifier) @name.definition.macro) @definition.macro

(call_expression
    function: (identifier) @name.reference.call) @reference.call

(call_expression
    function: (field_expression
        field: (field_identifier) @name.reference.call)) @reference.call

(macro_invocation
    macro: (identifier) @name.reference.call) @reference.call

(impl_item
    trait: (type_identifier) @name.reference.implementation) @reference.implementation

(impl_item
    type: (type_identifier) @name.reference.implementation
    !trait) @reference.implementation
"##);
    reveal_strlit("(struct_item\n    name: (type_identifier) @name.definition.class)");
    assert(RUST_SCM@.subrange(1, 65) =~= "(struct_item\n    name: (type_identifier) @name.definition.class)"@);
}

/// The Python query's length, and the definition patterns it holds.
pub proof fn lemma_python_scm()
    ensures
        PYTHON_SCM@.len() == 438,
        is_piece("(class_definition\n  name: (identifier) @name.definition.class)"@, PYTHON_SCM@),
{
    reveal_strlit(r##"
(module (expression_statement (assignment left: (identifier) @name.definition.constant) @definition.constant))

(class_definition
  name: (identifier) @name.definition.class) @definition.class

(function_definition
  name: (identifier) @name.definition.function) @definition.function

(call
  function: [
      (identifier) @name.reference.call
      (attribute
        attribute: (identifier) @name.reference.call)
  ]) @reference.call
"##);
    reveal_strlit("(class_definition\n  name: (identifier) @name.definition.class)");
    assert(PYTHON_SCM@.subrange(113, 175) =~= "(class_definition\n  name: (identifier) @name.definition.class)"@);
}

/// The TypeScript query's length, and the definition patterns it holds.
pub proof fn lemma_typescript_scm()
    ensures
        TYPESCRIPT_SCM@.len() == 717,
        is_piece("(interface_declaration\n  name: (type_identifier) @name.definition.interface)"@, TYPESCRIPT_SCM@),
        is_piece("(method_signature\n  name: (property_identifier) @name.definition.method)"@, TYPESCRIPT_SCM@),
{
    reveal_strlit(r##"
(function_signature
  name: (identifier) @name.definition.function) @definition.function

(method_signature
  name: (property_identifier) @name.definition.method) @definition.method

(abstract_method_signature
  name: (property_identifier) @name.definition.method) @definition.method

(abstract_class_declaration
  name: (type_identifier) @name.definition.class) @definition.class

(module
  name: (identifier) @name.definition.module) @definition.module

(interface_declaration
  name: (type_identifier) @name.definition.interface) @definition.interface

(type_annotation
  (type_identifier) @name.reference.type) @reference.type

(new_expression
  constructor: (identifier) @name.reference.class) @reference.class
"##);
    reveal_strlit("(interface_declaration\n  name: (type_identifier) @name.definition.interface)");
    assert(TYPESCRIPT_SCM@.subrange(457, 533) =~= "(interface_declaration\n  name: (type_identifier) @name.definition.interface)"@);
    reveal_strlit("(method_signature\n  name: (property_identifier) @name.definition.method)");
    assert(TYPESCRIPT_SCM@.subrange(91, 163) =~= "(method_signature\n  name: (property_identifier) @name.definition.method)"@);
}

/// The JavaScript query's length, and the definition patterns it holds.
pub proof fn lemma_javascript_scm()
    ensures
        JAVASCRIPT_SCM@.len() == 2550,
        is_piece("(method_definition\n    name: (property_identifier) @name.definition.method)"@, JAVASCRIPT_SCM@),
{
    reveal_strlit(r##"
(
  (comment)* @doc
  .
  (method_definition
    name: (property_identifier) @name.definition.method) @definition.method
  (#not-eq? @name.definition.method "constructor")
  (#strip! @doc "^[\\s\\*/]+|^[\\s\\*/]$")
  (#select-adjacent! @doc @definition.method)
)

(
  (comment)* @doc
  .
  [
    (class
      name: (_) @name.definition.class)
    (class_declaration
      name: (_) @name.definition.class)
  ] @definition.class
  (#strip! @doc "^[\\s\\*/]+|^[\\s\\*/]$")
  (#select-adjacent! @doc @definition.class)
)

(
  (comment)* @doc
  .
  [
    (function_expression
      name: (identifier) @name.definition.function)
    (function_declaration
      name: (identifier) @name.definition.function)
    (generator_function
      name: (identifier) @name.definition.function)
    (generator_function_declaration
      name: (identifier) @name.definition.function)
  ] @definition.function
  (#strip! @doc "^[\\s\\*/]+|^[\\s\\*/]$")
  (#select-adjacent! @doc @definition.function)
)

(
  (comment)* @doc
  .
  (lexical_declaration
    (variable_declarator
      name: (identifier) @name.definition.function
      value: [(arrow_function) (function_expression)]) @definition.function)
  (#strip! @doc "^[\\s\\*/]+|^[\\s\\*/]$")
  (#select-adjacent! @doc @definition.function)
)

(
  (comment)* @doc
  .
  (variable_declaration
    (variable_declarator
      name: (identifier) @name.definition.function
      value: [(arrow_function) (function_expression)]) @definition.function)
  (#strip! @doc "^[\\s\\*/]+|^[\\s\\*/]$")
  (#select-adjacent! @doc @definition.function)
)

(assignment_expression
  left: [
    (identifier) @name.definition.function
    (member_expression
      property: (property_identifier) @name.definition.function)
  ]
  right: [(arrow_function) (function_expression)]
) @definition.function

(pair
  key: (property_identifier) @name.definition.function
  value: [(arrow_function) (function_expression)]) @definition.function

(
  (call_expression
    function: (identifier) @name.reference.call) @reference.call
  (#not-match? @name.reference.call "^(require)$")
)

(call_expression
  function: (member_expression
    property: (property_identifier) @name.reference.call)
  arguments: (_) @reference.call)

(new_expression
  constructor: (_) @name.reference.class) @reference.class

(export_statement value: (assignment_expression left: (identifier) @name.definition.constant right: ([
 (number)
 (string)
 (identifier)
 (undefined)
 (null)
 (new_expression)
 (binary_expression)
 (call_expression)
]))) @definition.constant
"##);
    reveal_strlit("(method_definition\n    name: (property_identifier) @name.definition.method)");
    assert(JAVASCRIPT_SCM@.subrange(27, 102) =~= "(method_definition\n    name: (property_identifier) @name.definition.method)"@);
}

/// The Go query's length, and the definition patterns it holds.
pub proof fn lemma_go_scm()
    ensures
        GO_SCM@.len() == 1227,
        is_piece("(type_spec\n  name: (type_identifier) @name.definition.type)"@, GO_SCM@),
        is_piece("(method_declaration\n    name: (field_identifier) @name.definition.method)"@, GO_SCM@),
{
    reveal_strlit(r##"
(
  (comment)* @doc
  .
  (function_declaration
    name: (identifier) @name.definition.function) @definition.function
  (#strip! @doc "^//\\s*")
  (#set-adjacent! @doc @definition.function)
)

(
  (comment)* @doc
  .
  (method_declaration
    name: (field_identifier) @name.definition.method) @definition.method
  (#strip! @doc "^//\\s*")
  (#set-adjacent! @doc @definition.method)
)

(call_expression
  function: [
    (identifier) @name.reference.call
    (parenthesized_expression (identifier) @name.reference.call)
    (selector_expression field: (field_identifier) @name.reference.call)
    (parenthesized_expression (selector_expression field: (field_identifier) @name.reference.call))
  ]) @reference.call

(type_spec
  name: (type_identifier) @name.definition.type) @definition.type

(type_identifier) @name.reference.type @reference.type

(package_clause "package" (package_identifier) @name)

(type_declaration (type_spec name: (type_identifier) @name type: (interface_type)))

(type_declaration (type_spec name: (type_identifier) @name type: (struct_type)))

(import_declaration (import_spec) @name)

(var_declaration (var_spec name: (identifier) @name))

(const_declaration (const_spec name: (identifier) @name))
"##);
    reveal_strlit("(type_spec\n  name: (type_identifier) @name.definition.type)");
    assert(GO_SCM@.subrange(716, 775) =~= "(type_spec\n  name: (type_identifier) @name.definition.type)"@);
    reveal_strlit("(method_declaration\n    name: (field_identifier) @name.definition.method)");
    assert(GO_SCM@.subrange(221, 294) =~= "(method_declaration\n    name: (field_identifier) @name.definition.method)"@);
}

/// The Java query's length, and the definition patterns it holds.
pub proof fn lemma_java_scm()
    ensures
        JAVA_SCM@.len() == 628,
        is_piece("(class_declaration\n  name: (identifier) @name.definition.class)"@, JAVA_SCM@),
{
    reveal_strlit(r##"
(class_declaration
  name: (identifier) @name.definition.class) @definition.class

(method_declaration
  name: (identifier) @name.definition.method) @definition.method

(method_invocation
  name: (identifier) @name.reference.call
  arguments: (argument_list) @reference.call)

(interface_declaration
  name: (identifier) @name.definition.interface) @definition.interface

(type_list
  (type_identifier) @name.reference.implementation) @reference.implementation

(object_creation_expression
  type: (type_identifier) @name.reference.class) @reference.class

(superclass (type_identifier) @name.reference.class) @reference.class
"##);
    reveal_strlit("(class_declaration\n  name: (identifier) @name.definition.class)");
    assert(JAVA_SCM@.subrange(1, 64) =~= "(class_declaration\n  name: (identifier) @name.definition.class)"@);
}

/// The Ruby query's length, and the definition patterns it holds.
pub proof fn lemma_ruby_scm()
    ensures
        RUBY_SCM@.len() == 1217,
        is_piece("(singleton_method\n      name: (_) @name.definition.method)"@, RUBY_SCM@),
{
    reveal_strlit(r##"
(
  (comment)* @doc
  .
  [
    (method
      name: (_) @name.definition.method) @definition.method
    (singleton_method
      name: (_) @name.definition.method) @definition.method
  ]
  (#strip! @doc "^#\\s*")
  (#select-adjacent! @doc @definition.method)
)

(alias
  name: (_) @name.definition.method) @definition.method

(setter
  (identifier) @ignore)

(
  (comment)* @doc
  .
  [
    (class
      name: [
        (constant) @name.definition.class
        (scope_resolution
          name: (_) @name.definition.class)
      ]) @definition.class
    (singleton_class
      value: [
        (constant) @name.definition.class
        (scope_resolution
          name: (_) @name.definition.class)
      ]) @definition.class
  ]
  (#strip! @doc "^#\\s*")
  (#select-adjacent! @doc @definition.class)
)

(
  (module
    name: [
      (constant) @name.definition.module
      (scope_resolution
        name: (_) @name.definition.module)
    ]) @definition.module
)

(call method: (identifier) @name.reference.call) @reference.call

(
  [(identifier) (constant)] @name.reference.call @reference.call
  (#is-not? local)
  (#not-match? @name.reference.call "^(lambda|load|require|require_relative|__FILE__|__LINE__)$")
)
"##);
    reveal_strlit("(singleton_method\n      name: (_) @name.definition.method)");
    assert(RUBY_SCM@.subrange(105, 163) =~= "(singleton_method\n      name: (_) @name.definition.method)"@);
}

/// The C query's length, and the definition patterns it holds.
pub proof fn lemma_c_scm()
    ensures
        C_SCM@.len() == 543,
        is_piece("(struct_specifier name: (type_identifier) @name.definition.class body:(_))"@, C_SCM@),
        is_piece("(function_declarator declarator: (identifier) @name.definition.function)"@, C_SCM@),
{
    reveal_strlit(r##"
(struct_specifier name: (type_identifier) @name.definition.class body:(_)) @definition.class

(declaration type: (union_specifier name: (type_identifier) @name.definition.class)) @definition.class

(function_declarator declarator: (identifier) @name.definition.function) @definition.function

(type_definition declarator: (type_identifier) @name.definition.type) @definition.type

(enum_specifier name: (type_identifier) @name.definition.type) @definition.type

(call_expression
  function: (identifier) @name.reference.call) @reference.call
"##);
    reveal_strlit("(struct_specifier name: (type_identifier) @name.definition.class body:(_))");
    assert(C_SCM@.subrange(1, 75) =~= "(struct_specifier name: (type_identifier) @name.definition.class body:(_))"@);
    reveal_strlit("(function_declarator declarator: (identifier) @name.definition.function)");
    assert(C_SCM@.subrange(199, 271) =~= "(function_declarator declarator: (identifier) @name.definition.function)"@);
}

/// The C++ query's length, and the definition patterns it holds.
pub proof fn lemma_cpp_scm()
    ensures
        CPP_SCM@.len() == 1008,
        is_piece("(class_specifier name: (type_identifier) @name.definition.class)"@, CPP_SCM@),
        is_piece("(function_declarator declarator: (field_identifier) @name.definition.function)"@, CPP_SCM@),
{
    reveal_strlit(r##"
(struct_specifier name: (type_identifier) @name.definition.class body:(_)) @definition.class

(declaration type: (union_specifier name: (type_identifier) @name.definition.class)) @definition.class

(function_declarator declarator: (identifier) @name.definition.function) @definition.function

(function_declarator declarator: (field_identifier) @name.definition.function) @definition.function

(function_declarator declarator: (qualified_identifier scope: (namespace_identifier) @local.scope name: (identifier) @name.definition.method)) @definition.method

(type_definition declarator: (type_identifier) @name.definition.type) @definition.type

(enum_specifier name: (type_identifier) @name.definition.type) @definition.type

(class_specifier name: (type_identifier) @name.definition.class) @definition.class

(call_expression
  function: (identifier) @name.reference.call) @reference.call

(call_expression
  function: (field_expression
    field: (field_identifier) @name.reference.call)) @reference.call
"##);
    reveal_strlit("(class_specifier name: (type_identifier) @name.definition.class)");
    assert(CPP_SCM@.subrange(727, 791) =~= "(class_specifier name: (type_identifier) @name.definition.class)"@);
    reveal_strlit("(function_declarator declarator: (field_identifier) @name.definition.function)");
    assert(CPP_SCM@.subrange(294, 372) =~= "(function_declarator declarator: (field_identifier) @name.definition.function)"@);
}

/// The Swift query's length, and the definition patterns it holds.
pub proof fn lemma_swift_scm()
    ensures
        SWIFT_SCM@.len() == 1666,
        is_piece("(protocol_declaration\n  name: (type_identifier) @name.definition.interface)"@, SWIFT_SCM@),
{
    reveal_strlit(r##"
(class_declaration
  name: (type_identifier) @name.definition.class) @definition.class

(protocol_declaration
  name: (type_identifier) @name.definition.interface) @definition.interface

(class_declaration
    (class_body
        [
            (function_declaration
                name: (simple_identifier) @name.definition.method
            )
            (subscript_declaration
                (parameter (simple_identifier) @name.definition.method)
            )
            (init_declaration "init" @name.definition.method)
            (deinit_declaration "deinit" @name.definition.method)
        ]
    )
) @definition.method

(protocol_declaration
    (protocol_body
        [
            (protocol_function_declaration
                name: (simple_identifier) @name.definition.method
            )
            (subscript_declaration
                (parameter (simple_identifier) @name.definition.method)
            )
            (init_declaration "init" @name.definition.method)
        ]
    )
) @definition.method

(class_declaration
    (class_body
        [
            (property_declaration
                (pattern (simple_identifier) @name.definition.property)
            )
        ]
    )
) @definition.property

(property_declaration
    (pattern (simple_identifier) @name.definition.property)
) @definition.property

(function_declaration
    name: (simple_identifier) @name.definition.function) @definition.function

(call_expression
  (simple_identifier) @name.reference.call) @reference.call

(call_expression
  (navigation_expression
    suffix: (navigation_suffix
      suffix: (simple_identifier) @name.reference.call))) @reference.call
"##);
    reveal_strlit("(protocol_declaration\n  name: (type_identifier) @name.definition.interface)");
    assert(SWIFT_SCM@.subrange(89, 164) =~= "(protocol_declaration\n  name: (type_identifier) @name.definition.interface)"@);
}

} // verus!
