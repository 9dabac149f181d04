//! Verified core of the lumen JavaScript engine's built-in library.
pub mod async_laws;
pub mod building_laws;
pub mod builtin;
pub mod collections;
pub mod descriptor;
pub mod dispatch;
pub mod dispatch_laws;
pub mod equality;
pub mod feeds;
pub mod from_async;
pub mod generator;
pub mod globals;
pub mod helper_laws;
pub mod holder_laws;
pub mod install;
pub mod interp;
pub mod iter_helper;
pub mod iterator;
pub mod iterator_calls;
pub mod iterator_laws;
pub mod iterator_objects;
pub mod locale;
pub mod making_laws;
pub mod num;
pub mod num_format;
pub mod object;
pub mod object_laws;
pub mod own_keys;
pub mod places;
pub mod promise;
pub mod promise_laws;
pub mod proxy;
pub mod proxy_laws;
pub mod realm;
pub mod regexp;
pub mod regexp_laws;
pub mod retained;
pub mod set_laws;
pub mod set_methods;
pub mod slots;
pub mod sort;
pub mod states;
pub mod string;
pub mod string_laws;
pub mod string_methods;
pub mod string_patterns;
pub mod text;
pub mod text_laws;
pub mod trace;
pub mod typed_arrays;
pub mod uri;
pub mod value_laws;
pub mod weak_refs;
pub mod zip;
pub mod zip_laws;
pub mod array;
pub mod array_callbacks;
pub mod array_laws;
pub mod ast;
pub mod cache;
pub mod callback_laws;
pub mod case;
pub mod cldr_collation;
pub mod cldr_locale_info;
