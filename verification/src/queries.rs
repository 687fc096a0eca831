//! The structural queries, one per language: each pattern captures a
//! definition's name as `@name` and marks the definition's whole node
//! with a capture whose label names the symbol kind.

use vstd::prelude::*;

use crate::detector::Language;

verus! {

/// The structural query source of a language, as a character
/// sequence: the text `get_query_source` returns.
pub open spec fn query_source_spec(lang: Language) -> Seq<char> {
    match lang {
        Language::Python => "
(class_definition name: (identifier) @name) @class
(function_definition name: (identifier) @name) @function
"@,
        Language::TypeScript | Language::Tsx => "
(function_declaration name: (identifier) @name) @function
(generator_function_declaration name: (identifier) @name) @function
(class_declaration name: (type_identifier) @name) @class
(method_definition name: (property_identifier) @name) @method
(interface_declaration name: (type_identifier) @name) @interface
(enum_declaration name: (identifier) @name) @enum
(type_alias_declaration name: (type_identifier) @name) @type
"@,
        Language::JavaScript | Language::Jsx => "
(function_declaration name: (identifier) @name) @function
(generator_function_declaration name: (identifier) @name) @function
(class_declaration name: (identifier) @name) @class
(method_definition name: (property_identifier) @name) @method
"@,
        Language::Go => "
(function_declaration name: (identifier) @name) @function
(method_declaration name: (field_identifier) @name) @method
(type_spec name: (type_identifier) @name) @type
"@,
        Language::Rust => "
(function_item name: (identifier) @name) @function
(struct_item name: (type_identifier) @name) @class
(enum_item name: (type_identifier) @name) @enum
(trait_item name: (type_identifier) @name) @interface
(mod_item name: (identifier) @name) @module
(const_item name: (identifier) @name) @constant
(static_item name: (identifier) @name) @constant
(type_item name: (type_identifier) @name) @type
"@,
        Language::Java => "
(class_declaration name: (identifier) @name) @class
(method_declaration name: (identifier) @name) @method
(interface_declaration name: (identifier) @name) @interface
(enum_declaration name: (identifier) @name) @enum
"@,
        Language::C => "
(function_definition declarator: (function_declarator declarator: (identifier) @name)) @function
(struct_specifier name: (type_identifier) @name body: (_)) @class
(enum_specifier name: (type_identifier) @name) @enum
(type_definition declarator: (type_identifier) @name) @type
"@,
        Language::Cpp => "
(function_definition declarator: (function_declarator declarator: (identifier) @name)) @function
(struct_specifier name: (type_identifier) @name body: (_)) @class
(class_specifier name: (type_identifier) @name) @class
(enum_specifier name: (type_identifier) @name) @enum
(type_definition declarator: (type_identifier) @name) @type
(namespace_definition name: (_) @name) @namespace
"@,
        Language::Ruby => "
(method name: (_) @name) @method
(singleton_method name: (_) @name) @method
(class name: (_) @name) @class
(module name: (_) @name) @module
"@,
        Language::Markdown => "
(atx_heading heading_content: (inline) @name) @module
"@,
        Language::Swift => "
(class_declaration name: (type_identifier) @name) @class
(protocol_declaration name: (type_identifier) @name) @interface
(function_declaration name: (simple_identifier) @name) @function
"@,
        Language::ObjC => "
(function_definition declarator: (function_declarator declarator: (identifier) @name)) @function
(class_interface (identifier) @name) @class
(class_implementation (identifier) @name) @class
"@,
        Language::Kotlin => "
(function_declaration name: (_) @name) @function
(class_declaration name: (_) @name) @class
(object_declaration name: (_) @name) @class
"@,
        Language::CSharp => "
(class_declaration name: (identifier) @name) @class
(interface_declaration name: (identifier) @name) @interface
(method_declaration name: (identifier) @name) @method
(enum_declaration name: (identifier) @name) @enum
(namespace_declaration name: (identifier) @name) @namespace
"@,
    }
}

/// The structural query source for a language.
pub fn get_query_source(lang: &Language) -> (r: &'static str)
    ensures
        r@ == query_source_spec(*lang),
{
    match lang {
        Language::Python => "
(class_definition name: (identifier) @name) @class
(function_definition name: (identifier) @name) @function
",
        Language::TypeScript | Language::Tsx => "
(function_declaration name: (identifier) @name) @function
(generator_function_declaration name: (identifier) @name) @function
(class_declaration name: (type_identifier) @name) @class
(method_definition name: (property_identifier) @name) @method
(interface_declaration name: (type_identifier) @name) @interface
(enum_declaration name: (identifier) @name) @enum
(type_alias_declaration name: (type_identifier) @name) @type
",
        Language::JavaScript | Language::Jsx => "
(function_declaration name: (identifier) @name) @function
(generator_function_declaration name: (identifier) @name) @function
(class_declaration name: (identifier) @name) @class
(method_definition name: (property_identifier) @name) @method
",
        Language::Go => "
(function_declaration name: (identifier) @name) @function
(method_declaration name: (field_identifier) @name) @method
(type_spec name: (type_identifier) @name) @type
",
        Language::Rust => "
(function_item name: (identifier) @name) @function
(struct_item name: (type_identifier) @name) @class
(enum_item name: (type_identifier) @name) @enum
(trait_item name: (type_identifier) @name) @interface
(mod_item name: (identifier) @name) @module
(const_item name: (identifier) @name) @constant
(static_item name: (identifier) @name) @constant
(type_item name: (type_identifier) @name) @type
",
        Language::Java => "
(class_declaration name: (identifier) @name) @class
(method_declaration name: (identifier) @name) @method
(interface_declaration name: (identifier) @name) @interface
(enum_declaration name: (identifier) @name) @enum
",
        Language::C => "
(function_definition declarator: (function_declarator declarator: (identifier) @name)) @function
(struct_specifier name: (type_identifier) @name body: (_)) @class
(enum_specifier name: (type_identifier) @name) @enum
(type_definition declarator: (type_identifier) @name) @type
",
        Language::Cpp => "
(function_definition declarator: (function_declarator declarator: (identifier) @name)) @function
(struct_specifier name: (type_identifier) @name body: (_)) @class
(class_specifier name: (type_identifier) @name) @class
(enum_specifier name: (type_identifier) @name) @enum
(type_definition declarator: (type_identifier) @name) @type
(namespace_definition name: (_) @name) @namespace
",
        Language::Ruby => "
(method name: (_) @name) @method
(singleton_method name: (_) @name) @method
(class name: (_) @name) @class
(module name: (_) @name) @module
",
        Language::Markdown => "
(atx_heading heading_content: (inline) @name) @module
",
        Language::Swift => "
(class_declaration name: (type_identifier) @name) @class
(protocol_declaration name: (type_identifier) @name) @interface
(function_declaration name: (simple_identifier) @name) @function
",
        Language::ObjC => "
(function_definition declarator: (function_declarator declarator: (identifier) @name)) @function
(class_interface (identifier) @name) @class
(class_implementation (identifier) @name) @class
",
        Language::Kotlin => "
(function_declaration name: (_) @name) @function
(class_declaration name: (_) @name) @class
(object_declaration name: (_) @name) @class
",
        Language::CSharp => "
(class_declaration name: (identifier) @name) @class
(interface_declaration name: (identifier) @name) @interface
(method_declaration name: (identifier) @name) @method
(enum_declaration name: (identifier) @name) @enum
(namespace_declaration name: (identifier) @name) @namespace
",
    }
}

} // verus!
