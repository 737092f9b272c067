(* Tells the calls of a compiled OCaml source, one on each line: whether the
   callee is named, its path, the file, the lines and columns where the call
   begins and ends, and the type of the callee. The fields stand between tabs. *)

open Typedtree

let clean text =
  String.map (function '\n' | '\r' | '\t' -> ' ' | character -> character) text

let signature ty = clean (Format.asprintf "%a" Printtyp.type_expr ty)

let column position = position.Lexing.pos_cnum - position.Lexing.pos_bol

let tell kind target location ty =
  let first = location.Location.loc_start in
  let last = location.Location.loc_end in
  Printf.printf "%s\t%s\t%s\t%d\t%d\t%d\t%d\t%s\n" kind target
    first.Lexing.pos_fname first.Lexing.pos_lnum (column first)
    last.Lexing.pos_lnum (column last) (signature ty)

let visit iterator expression =
  (match expression.exp_desc with
  | Texp_apply (callee, _) -> (
      match callee.exp_desc with
      | Texp_ident (path, _, _) ->
          tell "direct" (Path.name path) expression.exp_loc callee.exp_type
      | _ -> tell "indirect" "" expression.exp_loc callee.exp_type)
  | _ -> ());
  Tast_iterator.default_iterator.expr iterator expression

let iterator = { Tast_iterator.default_iterator with expr = visit }

let () =
  let cmt = Cmt_format.read_cmt Sys.argv.(1) in
  match cmt.Cmt_format.cmt_annots with
  | Cmt_format.Implementation structure ->
      iterator.Tast_iterator.structure iterator structure
  | _ -> ()
