//! What the compiler options of a `tsconfig.json` make of a transform:
//! class field semantics, decorators, JSX and import rewriting.

use vstd::prelude::*;
use vstd::utf8::*;
use vstd::string::StringSliceAdditionalSpecFns;
use crate::text::{eq_ignore_case, eq_ignore_ascii_case, same_text};
use crate::ipv4::{from_str_radix_u64, parse_u64_radix};
use crate::tsconfig::CompilerOptions;

verus! {

broadcast use {vstd::seq::group_seq_axioms, vstd::seq_lib::group_seq_properties};

/// `u32::from_str`: an optional leading `+`, then at least one decimal
/// digit, the value fitting in 32 bits.
pub open spec fn parsed_u32(s: Seq<u8>) -> Option<u32> {
    match from_str_radix_u64(s, 10) {
        Some(v) => if v <= u32::MAX {
            Some(v as u32)
        } else {
            None
        },
        None => None,
    }
}

/// Whether a TypeScript `target` is `ES2022` or later, `ESNext` included:
/// `esnext` in any case, or `es` in any case followed by a year of at
/// least 2022 (`es3`, `es5` and `es6` parse to 3, 5 and 6).
pub open spec fn native_class_fields(target: Seq<u8>) -> bool {
    ||| eq_ignore_case(target, "esnext".spec_bytes())
    ||| {
        &&& target.len() >= 2
        &&& eq_ignore_case(target.subrange(0, 2), "es".spec_bytes())
        &&& parsed_u32(target.subrange(2, target.len() as int)) matches Some(year)
        &&& year >= 2022
    }
}

/// Whether a TypeScript `target` is `ES2022` or later.
pub fn target_has_native_class_fields(target: &str) -> (res: bool)
    ensures
        res == native_class_fields(target.spec_bytes()),
{
    let t = target.as_bytes();
    if eq_ignore_ascii_case(t, "esnext".as_bytes()) {
        return true;
    }
    if t.len() < 2 || !eq_ignore_ascii_case(&t[0..2], "es".as_bytes()) {
        return false;
    }
    match parse_u64_radix(&t[2..t.len()], 10) {
        Some(year) => year <= 0xffff_ffff && year >= 2022,
        None => false,
    }
}

/// TypeScript's `useDefineForClassFields`: the explicit setting when there
/// is one; otherwise `true` when the target has native class fields or
/// when no target is set (TypeScript then defaults to a recent target).
pub open spec fn defines_class_fields(options: Option<&CompilerOptions>) -> bool {
    match options {
        Some(c) => match c.use_define_for_class_fields {
            Some(explicit) => explicit,
            None => match c.target {
                Some(t) => native_class_fields(encode_utf8(t@)),
                None => true,
            },
        },
        None => true,
    }
}

/// Whether class fields use `[[Define]]` semantics.
pub fn use_define_for_class_fields(options: Option<&CompilerOptions>) -> (res: bool)
    ensures
        res == defines_class_fields(options),
{
    match options {
        Some(c) => match c.use_define_for_class_fields {
            Some(explicit) => explicit,
            None => match &c.target {
                Some(t) => target_has_native_class_fields(t.as_str()),
                None => true,
            },
        },
        None => true,
    }
}

/// The JSX runtimes that `compilerOptions.jsx` can select.
#[derive(Clone, Copy, PartialEq, Eq, Structural, Debug)]
pub enum JsxRuntime {
    Automatic,
    Classic,
}

/// The module system that the transform targets.
#[derive(Clone, Copy, PartialEq, Eq, Structural, Debug)]
pub enum ModuleTarget {
    /// Keep ES module syntax as it is.
    Preserve,
    /// Compile TypeScript's `import =` / `export =` to CommonJS.
    CommonJs,
}

/// The transform settings that follow from the compiler options.
pub struct TransformSettings {
    /// `[[Set]]` semantics for public class fields: the negation of
    /// `useDefineForClassFields`.
    pub set_public_class_fields: bool,
    /// Legacy decorators, from `experimentalDecorators`.
    pub legacy_decorators: bool,
    pub emit_decorator_metadata: bool,
    pub strict_null_checks: bool,
    /// The JSX runtime; `None` leaves the transformer's default.
    pub jsx_runtime: Option<JsxRuntime>,
    pub jsx_import_source: Option<String>,
    /// The JSX factory, from `jsxFactory`.
    pub jsx_pragma: Option<String>,
    /// The JSX fragment factory, from `jsxFragmentFactory`.
    pub jsx_pragma_frag: Option<String>,
    /// Rewrite relative `.ts` imports to `.js`.
    pub rewrite_import_extensions: bool,
    /// Drop class fields without an initializer, as `tsc` does under
    /// `[[Set]]` semantics instead of assigning `undefined`.
    pub remove_class_fields_without_initializer: bool,
    /// The module target; `None` leaves the transformer's default.
    pub module: Option<ModuleTarget>,
    /// Whether top-level `await` is lowered.
    pub top_level_await: bool,
    /// Lower class static blocks.
    pub class_static_block: bool,
    /// Lower class properties (`#private` fields stay private).
    pub class_properties: bool,
    /// Lower `using` declarations.
    pub explicit_resource_management: bool,
    /// The module that injected helpers are imported from.
    pub helper_module: &'static str,
}

/// A flag of the compiler options, unset counting as `false`.
pub open spec fn flag(value: Option<bool>) -> bool {
    value == Some(true)
}

/// The JSX runtime that `compilerOptions.jsx` selects.
pub open spec fn jsx_runtime_of(options: Option<&CompilerOptions>) -> Option<JsxRuntime> {
    match options {
        Some(c) => match c.jsx {
            Some(j) => if j@ == "automatic"@ {
                Some(JsxRuntime::Automatic)
            } else if j@ == "classic"@ {
                Some(JsxRuntime::Classic)
            } else {
                None
            },
            None => None,
        },
        None => None,
    }
}

fn copy_text(value: &Option<String>) -> (res: Option<String>)
    ensures
        res == *value,
{
    match value {
        Some(s) => Some(s.clone()),
        None => None,
    }
}

/// The transform settings for a file whose compiler options are
/// `options`: class field semantics, decorators, JSX and import rewriting
/// follow the options; class static blocks, class properties and `using`
/// are always lowered, and helpers come from `@oxc-node/core`.
pub open spec fn settings_for(
    options: Option<&CompilerOptions>,
    module_target: Option<ModuleTarget>,
    enable_top_level_await: bool,
) -> TransformSettings {
    TransformSettings {
        set_public_class_fields: !defines_class_fields(options),
        legacy_decorators: options matches Some(c) && flag(c.experimental_decorators),
        emit_decorator_metadata: options matches Some(c) && flag(c.emit_decorator_metadata),
        strict_null_checks: options matches Some(c) && flag(c.strict_null_checks),
        jsx_runtime: jsx_runtime_of(options),
        jsx_import_source: match options {
            Some(c) => c.jsx_import_source,
            None => None,
        },
        jsx_pragma: match options {
            Some(c) => c.jsx_factory,
            None => None,
        },
        jsx_pragma_frag: match options {
            Some(c) => c.jsx_fragment_factory,
            None => None,
        },
        rewrite_import_extensions: options matches Some(c) && flag(
            c.rewrite_relative_import_extensions,
        ),
        remove_class_fields_without_initializer: !defines_class_fields(options),
        module: module_target,
        top_level_await: enable_top_level_await,
        class_static_block: true,
        class_properties: true,
        explicit_resource_management: true,
        helper_module: "@oxc-node/core",
    }
}

/// The transform settings for a file whose compiler options are `options`.
pub fn transform_settings(
    options: Option<&CompilerOptions>,
    module_target: Option<ModuleTarget>,
    enable_top_level_await: bool,
) -> (res: TransformSettings)
    ensures
        res == settings_for(options, module_target, enable_top_level_await),
{
    let set_public_class_fields = !use_define_for_class_fields(options);
    match options {
        Some(c) => {
            let jsx_runtime = match &c.jsx {
                Some(j) => if same_text(j.as_str(), "automatic") {
                    Some(JsxRuntime::Automatic)
                } else if same_text(j.as_str(), "classic") {
                    Some(JsxRuntime::Classic)
                } else {
                    None
                },
                None => None,
            };
            TransformSettings {
                set_public_class_fields,
                legacy_decorators: c.experimental_decorators == Some(true),
                emit_decorator_metadata: c.emit_decorator_metadata == Some(true),
                strict_null_checks: c.strict_null_checks == Some(true),
                jsx_runtime,
                jsx_import_source: copy_text(&c.jsx_import_source),
                jsx_pragma: copy_text(&c.jsx_factory),
                jsx_pragma_frag: copy_text(&c.jsx_fragment_factory),
                rewrite_import_extensions: c.rewrite_relative_import_extensions == Some(true),
                remove_class_fields_without_initializer: set_public_class_fields,
                module: module_target,
                top_level_await: enable_top_level_await,
                class_static_block: true,
                class_properties: true,
                explicit_resource_management: true,
                helper_module: "@oxc-node/core",
            }
        },
        None => TransformSettings {
            set_public_class_fields,
            legacy_decorators: false,
            emit_decorator_metadata: false,
            strict_null_checks: false,
            jsx_runtime: None,
            jsx_import_source: None,
            jsx_pragma: None,
            jsx_pragma_frag: None,
            rewrite_import_extensions: false,
            remove_class_fields_without_initializer: set_public_class_fields,
            module: module_target,
            top_level_await: enable_top_level_await,
            class_static_block: true,
            class_properties: true,
            explicit_resource_management: true,
            helper_module: "@oxc-node/core",
        },
    }
}

/// The boolean compiler options switch a feature on only when the config
/// sets them to `true`: unset or `false` leaves legacy decorators,
/// decorator metadata, strict null checks and import rewriting off. An
/// explicit `useDefineForClassFields` decides the class field semantics
/// (`[[Set]]` exactly when it is `false`), and with no config at all
/// fields are defined. The module target and the top-level `await`
/// switch pass through as given.
pub proof fn law_flags_need_explicit_true(
    options: Option<&CompilerOptions>,
    module_target: Option<ModuleTarget>,
    enable_top_level_await: bool,
)
    ensures
        ({
            let s = settings_for(options, module_target, enable_top_level_await);
            &&& s.legacy_decorators == (options matches Some(c) && c.experimental_decorators == Some(
                true,
            ))
            &&& s.emit_decorator_metadata == (options matches Some(c) && c.emit_decorator_metadata
                == Some(true))
            &&& s.strict_null_checks == (options matches Some(c) && c.strict_null_checks == Some(
                true,
            ))
            &&& s.rewrite_import_extensions == (options matches Some(c)
                && c.rewrite_relative_import_extensions == Some(true))
            &&& (options matches Some(c) && c.use_define_for_class_fields == Some(false))
                ==> s.set_public_class_fields
            &&& (options matches Some(c) && c.use_define_for_class_fields == Some(true))
                ==> !s.set_public_class_fields
            &&& options is None ==> !s.set_public_class_fields
            &&& s.remove_class_fields_without_initializer == s.set_public_class_fields
            &&& s.module == module_target
            &&& s.top_level_await == enable_top_level_await
        }),
{
}

} // verus!
