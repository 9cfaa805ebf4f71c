//! The structural model of a code base: files, classes and functions, as an extractor
//! produces them. The executor only reads it.
use crate::ast::strings_view;
use vstd::prelude::*;

verus! {

/// A position in a source file.
#[derive(Clone, Copy, Debug, Default, PartialEq, Eq, Structural)]
pub struct CodePoint {
    pub row: usize,
    pub column: usize,
}

/// A function or method, with the names of its variables.
#[derive(Clone, Debug, Default)]
pub struct CodeFunction {
    pub name: String,
    pub vars: Vec<String>,
    pub start: CodePoint,
    pub end: CodePoint,
}

/// A constant declared in a class.
#[derive(Clone, Debug, Default)]
pub struct ClassConstant {
    pub name: String,
    pub typ: String,
}

/// A class (or struct) with what it extends and implements.
#[derive(Clone, Debug, Default)]
pub struct CodeClass {
    pub name: String,
    pub package: String,
    pub extends: Vec<String>,
    pub implements: Vec<String>,
    pub constant: Vec<ClassConstant>,
    pub functions: Vec<CodeFunction>,
    pub start: CodePoint,
    pub end: CodePoint,
}

/// One source file of the model.
#[derive(Clone, Debug, Default)]
pub struct CodeFile {
    pub file_name: String,
    pub path: String,
    pub package: String,
    pub imports: Vec<String>,
    pub classes: Vec<CodeClass>,
    pub functions: Vec<CodeFunction>,
}

/// A package and its classes.
#[derive(Clone, Debug, Default)]
pub struct CodePackage {
    pub name: String,
    pub path: String,
    pub class: Vec<CodeClass>,
}

/// A module and its packages.
#[derive(Clone, Debug, Default)]
pub struct CodeModule {
    pub name: String,
    pub path: String,
    pub package: Vec<CodePackage>,
}

/// An import statement.
#[derive(Clone, Debug, Default)]
pub struct CodeImport {
    pub name: String,
    pub import: String,
    pub source: String,
}

/// An annotation with its (nested) key-value pairs.
#[derive(Debug, Default)]
pub struct CodeAnnotation {
    pub name: String,
    pub key_values: Vec<AnnotationKeyValue>,
}

/// One key of an annotation, with nested values.
#[derive(Debug, Default)]
pub struct AnnotationKeyValue {
    pub key: String,
    pub values: Vec<AnnotationKeyValue>,
}

/// Something that spans a range of source positions.
pub trait Location {
    spec fn start_point(&self) -> CodePoint;

    spec fn end_point(&self) -> CodePoint;

    fn set_start(&mut self, row: usize, column: usize)
        ensures
            final(self).start_point() == (CodePoint { row, column }),
            final(self).end_point() == old(self).end_point(),
    ;

    fn set_end(&mut self, row: usize, column: usize)
        ensures
            final(self).end_point() == (CodePoint { row, column }),
            final(self).start_point() == old(self).start_point(),
    ;
}

impl Location for CodeClass {
    open spec fn start_point(&self) -> CodePoint {
        self.start
    }

    open spec fn end_point(&self) -> CodePoint {
        self.end
    }

    fn set_start(&mut self, row: usize, column: usize) {
        self.start = CodePoint { row, column };
    }

    fn set_end(&mut self, row: usize, column: usize) {
        self.end = CodePoint { row, column };
    }
}

impl Location for CodeFunction {
    open spec fn start_point(&self) -> CodePoint {
        self.start
    }

    open spec fn end_point(&self) -> CodePoint {
        self.end
    }

    fn set_start(&mut self, row: usize, column: usize) {
        self.start = CodePoint { row, column };
    }

    fn set_end(&mut self, row: usize, column: usize) {
        self.end = CodePoint { row, column };
    }
}

/// What the executor reads of a class.
pub ghost struct ClassView {
    pub name: Seq<char>,
    pub package: Seq<char>,
    pub implements: Seq<Seq<char>>,
}

/// What the executor reads of a file.
pub ghost struct FileView {
    pub path: Seq<char>,
    pub package: Seq<char>,
    pub imports: Seq<Seq<char>>,
    pub classes: Seq<ClassView>,
}

impl View for CodeClass {
    type V = ClassView;

    open spec fn view(&self) -> ClassView {
        ClassView {
            name: self.name@,
            package: self.package@,
            implements: strings_view(self.implements@),
        }
    }
}

impl View for CodeFile {
    type V = FileView;

    open spec fn view(&self) -> FileView {
        FileView {
            path: self.path@,
            package: self.package@,
            imports: strings_view(self.imports@),
            classes: self.classes@.map_values(|c: CodeClass| c@),
        }
    }
}

/// The views of a sequence of files.
pub open spec fn files_view(v: Seq<CodeFile>) -> Seq<FileView> {
    v.map_values(|f: CodeFile| f@)
}

} // verus!
